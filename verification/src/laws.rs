use vstd::prelude::*;
use crate::rewrite::{
    spec_attr_end, spec_inside_after, spec_rewrite_abs, spec_rewrite_events, spec_rewrite_one,
    spec_rewrite_rel, spec_targeted, RelocationV,
};
use crate::bytes::{
    decode_amp_bytes, is_ws, lemma_find_byte_exact, no_filename_bytes, EQUALS, QUOT, SLASH,
};
use crate::rewrite::spec_update_sample_refs;
use crate::text::{contains_seq, last_segment, lemma_last_segment_from_cut};
use crate::tokenize::{lemma_events_concat, spec_events, EventKind, EventV};
use crate::xml::{
    imported_prefix, serum_marker, spec_attr_bytes, spec_get_value, spec_has_key,
    spec_parse_attrs, spec_serialize_attrs, spec_serialize_empty, spec_set_value, value_key, AttrV,
};

verus! {

/// The sample-reference block flag just before event `j` of the list,
/// starting from `inside` before the first event.
pub open spec fn spec_inside_at(evs: Seq<EventV>, inside: bool, j: int) -> bool
    decreases j,
{
    if j <= 0 {
        inside
    } else {
        spec_inside_after(evs[j - 1], spec_inside_at(evs, inside, j - 1))
    }
}

/// Dropping the first event and starting from the flag it leaves behind
/// tracks the same flag positions.
pub proof fn lemma_inside_at_skip(evs: Seq<EventV>, inside: bool, j: int)
    requires
        0 <= j,
        j + 1 < evs.len(),
    ensures
        spec_inside_at(evs.skip(1), spec_inside_after(evs[0], inside), j) == spec_inside_at(
            evs,
            inside,
            j + 1,
        ),
    decreases j,
{
    if j == 0 {
        assert(spec_inside_at(evs.skip(1), spec_inside_after(evs[0], inside), 0)
            == spec_inside_after(evs[0], inside));
        assert(spec_inside_at(evs, inside, 1) == spec_inside_after(
            evs[0],
            spec_inside_at(evs, inside, 0),
        ));
    } else {
        lemma_inside_at_skip(evs, inside, j - 1);
        assert(evs.skip(1)[j - 1] == evs[j as int]);
        assert(spec_inside_at(evs.skip(1), spec_inside_after(evs[0], inside), j)
            == spec_inside_after(
            evs.skip(1)[j - 1],
            spec_inside_at(evs.skip(1), spec_inside_after(evs[0], inside), j - 1),
        ));
        assert(spec_inside_at(evs, inside, j + 1) == spec_inside_after(
            evs[j as int],
            spec_inside_at(evs, inside, j),
        ));
    }
}

/// Pass-through invariant: a successful rewrite yields one output event per
/// input event, and every event that is not a targeted path-bearing element
/// inside a sample-reference block comes out exactly as it went in, bytes
/// included.
pub proof fn lemma_rewrite_pass_through(
    evs: Seq<EventV>,
    inside: bool,
    exclude_noises: bool,
    root: Seq<u8>,
)
    requires
        spec_rewrite_events(evs, inside, exclude_noises, root) is Some,
    ensures
        (spec_rewrite_events(evs, inside, exclude_noises, root)->0).0.len() == evs.len(),
        forall|j: int|
            0 <= j < evs.len() && !spec_targeted(evs[j], spec_inside_at(evs, inside, j))
                ==> (spec_rewrite_events(evs, inside, exclude_noises, root)->0).0[j] == evs[j],
    decreases evs.len(),
{
    if evs.len() > 0 {
        let inside1 = spec_inside_after(evs[0], inside);
        let tail = evs.skip(1);
        lemma_rewrite_pass_through(tail, inside1, exclude_noises, root);
        let out = (spec_rewrite_events(evs, inside, exclude_noises, root)->0).0;
        let out_tail = (spec_rewrite_events(tail, inside1, exclude_noises, root)->0).0;
        let (ev2, _rel) = spec_rewrite_one(evs[0], inside, exclude_noises, root)->0;
        assert(out == seq![ev2] + out_tail);
        assert forall|j: int|
            0 <= j < evs.len() && !spec_targeted(evs[j], spec_inside_at(evs, inside, j))
                implies out[j] == evs[j] by {
            if j == 0 {
                assert(spec_inside_at(evs, inside, 0) == inside);
                assert(!spec_targeted(evs[0], inside));
                assert(ev2 == evs[0]);
            } else {
                lemma_inside_at_skip(evs, inside, j - 1);
                assert(tail[j - 1] == evs[j]);
                assert(out[j] == out_tail[j - 1]);
            }
        }
    }
}

/// When the first path-bearing attribute's value carries the factory
/// noise-preset marker, the filtered read yields nothing.
pub proof fn lemma_get_value_filtered(attrs: Seq<AttrV>)
    requires
        spec_get_value(attrs, false) is Some,
        contains_seq(spec_get_value(attrs, false)->0, serum_marker()),
    ensures
        spec_get_value(attrs, true) is None,
    decreases attrs.len(),
{
    if attrs.len() > 0 && attrs[0].key != value_key() {
        lemma_get_value_filtered(attrs.skip(1));
    }
}

/// Noise-preset skip: when the filter is on and the element's path value
/// carries the factory noise-preset marker, the element is emitted
/// unchanged and no relocation is requested, whether it is the absolute or
/// the relative path element.
pub proof fn lemma_noise_preset_skip(ev: EventV, root: Seq<u8>)
    requires
        spec_parse_attrs(ev.raw, 1 + ev.name.len() as int, spec_attr_end(ev.raw)) is Some,
        spec_get_value(
            spec_parse_attrs(ev.raw, 1 + ev.name.len() as int, spec_attr_end(ev.raw))->0,
            false,
        ) is Some,
        contains_seq(
            spec_get_value(
                spec_parse_attrs(ev.raw, 1 + ev.name.len() as int, spec_attr_end(ev.raw))->0,
                false,
            )->0,
            serum_marker(),
        ),
    ensures
        spec_rewrite_abs(ev, true, root) == Option::Some((ev, Option::None::<RelocationV>)),
        spec_rewrite_rel(ev, true) == Option::Some((ev, Option::None::<RelocationV>)),
{
    let attrs = spec_parse_attrs(ev.raw, 1 + ev.name.len() as int, spec_attr_end(ev.raw))->0;
    lemma_get_value_filtered(attrs);
}


/// An attribute that serializes and parses back cleanly: a nonempty key
/// free of whitespace and equals signs, and a value free of double quotes.
pub open spec fn wf_attr(a: AttrV) -> bool {
    a.key.len() > 0 && (forall|k: int|
        0 <= k < a.key.len() ==> !is_ws(#[trigger] a.key[k]) && a.key[k] != EQUALS) && (forall|
        k: int,
    |
        0 <= k < a.value.len() ==> #[trigger] a.value[k] != QUOT)
}

/// Every attribute of the list is well formed.
pub open spec fn wf_attrs(attrs: Seq<AttrV>) -> bool {
    forall|j: int| 0 <= j < attrs.len() ==> wf_attr(#[trigger] attrs[j])
}

/// Parsing recovers a serialized attribute list: when the serialized bytes
/// of a well-formed list stand in `s` at position `i`, parsing that region
/// yields exactly the list back.
pub proof fn lemma_parse_serialized_attrs(s: Seq<u8>, i: int, attrs: Seq<AttrV>)
    requires
        wf_attrs(attrs),
        0 <= i,
        i + spec_serialize_attrs(attrs).len() <= s.len(),
        s.subrange(i, i + spec_serialize_attrs(attrs).len() as int) == spec_serialize_attrs(attrs),
    ensures
        spec_parse_attrs(s, i, i + spec_serialize_attrs(attrs).len() as int) == Option::Some(
            attrs,
        ),
    decreases attrs.len(),
{
    let body = spec_serialize_attrs(attrs);
    let end = i + body.len() as int;
    assert(forall|k: int| 0 <= k < body.len() ==> s[i + k] == #[trigger] body[k]) by {
        assert(forall|k: int|
            0 <= k < body.len() ==> #[trigger] s.subrange(i, end)[k] == s[i + k]);
    }
    if attrs.len() == 0 {
        assert(spec_parse_attrs(s, i, end) == Option::Some(Seq::<AttrV>::empty()));
        assert(Seq::<AttrV>::empty() =~= attrs);
    } else {
        let a = attrs[0];
        let ab = spec_attr_bytes(a);
        let restb = spec_serialize_attrs(attrs.skip(1));
        assert(body == ab + restb);
        let kl = a.key.len() as int;
        let vl = a.value.len() as int;
        assert(seq![32u8].len() == 1);
        assert(seq![EQUALS, QUOT].len() == 2);
        assert(seq![QUOT].len() == 1);
        assert(ab == seq![32u8] + a.key + seq![EQUALS, QUOT] + a.value + seq![QUOT]);
        assert((seq![32u8] + a.key).len() == 1 + a.key.len());
        assert((seq![32u8] + a.key + seq![EQUALS, QUOT]).len() == 3 + a.key.len());
        assert((seq![32u8] + a.key + seq![EQUALS, QUOT] + a.value).len() == 3 + a.key.len()
            + a.value.len());
        assert(ab.len() == kl + vl + 4);
        let e = i + 1 + kl;
        let v = e + 2 + vl;
        assert(ab[0] == 32);
        assert(forall|k: int| 0 <= k < kl ==> #[trigger] ab[1 + k] == a.key[k]);
        assert(ab[1 + kl] == EQUALS);
        assert(ab[2 + kl] == QUOT);
        assert(forall|k: int| 0 <= k < vl ==> #[trigger] ab[3 + kl + k] == a.value[k]);
        assert(ab[3 + kl + vl] == QUOT);
        assert(body[0] == 32);
        assert(s[i + 0] == body[0]);
        assert(s[i] == 32);
        assert(forall|k: int| i + 1 <= k < e ==> #[trigger] s[k] == a.key[k - (i + 1)]) by {
            assert(forall|k: int|
                i + 1 <= k < e ==> #[trigger] s[k] == body[k - i] && body[k - i] == ab[k - i]
                    && ab[k - i] == a.key[k - (i + 1)]);
        }
        assert(body[1 + kl] == EQUALS);
        assert(s[i + (1 + kl)] == body[1 + kl]);
        assert(s[e] == EQUALS);
        assert(body[2 + kl] == QUOT);
        assert(s[i + (2 + kl)] == body[2 + kl]);
        assert(s[e + 1] == QUOT);
        assert(forall|k: int| e + 2 <= k < v ==> #[trigger] s[k] == a.value[k - (e + 2)]) by {
            assert(forall|k: int|
                e + 2 <= k < v ==> #[trigger] s[k] == body[k - i] && body[k - i] == ab[k - i]
                    && ab[k - i] == a.value[k - (e + 2)]);
        }
        assert(body[3 + kl + vl] == QUOT);
        assert(s[i + (3 + kl + vl)] == body[3 + kl + vl]);
        assert(s[v] == QUOT);
        assert(wf_attr(a));
        assert(forall|k: int| i + 1 <= k < e ==> #[trigger] s[k] != EQUALS);
        lemma_find_byte_exact(s, i + 1, EQUALS, e);
        assert(forall|k: int| e + 2 <= k < v ==> #[trigger] s[k] != QUOT);
        lemma_find_byte_exact(s, e + 2, QUOT, v);
        assert(s.subrange(i + 1, e) =~= a.key);
        assert(s.subrange(e + 2, v) =~= a.value);
        assert(v + 1 == i + ab.len());
        assert(end == v + 1 + restb.len());
        assert(wf_attrs(attrs.skip(1))) by {
            assert(forall|j: int|
                0 <= j < attrs.skip(1).len() ==> #[trigger] attrs.skip(1)[j] == attrs[j + 1]);
        }
        assert(s.subrange(v + 1, end) =~= restb) by {
            assert(forall|k: int|
                0 <= k < restb.len() ==> #[trigger] s.subrange(v + 1, end)[k] == s[v + 1 + k]
                    && s[v + 1 + k] == body[ab.len() + k] && body[ab.len() + k] == restb[k]);
        }
        lemma_parse_serialized_attrs(s, v + 1, attrs.skip(1));
        assert(!is_ws(s[i + 1]));
        assert(spec_parse_attrs(s, i, end) == spec_parse_attrs(s, i + 1, end));
        assert(spec_parse_attrs(s, i + 1, end) == Option::Some(
            seq![AttrV { key: s.subrange(i + 1, e), value: s.subrange(e + 2, v) }] + attrs.skip(
                1,
            ),
        ));
        assert(seq![AttrV { key: s.subrange(i + 1, e), value: s.subrange(e + 2, v) }] + attrs.skip(
            1,
        ) =~= attrs);
    }
}

/// Parsing recovers the attribute list of a serialized self-closing tag.
pub proof fn lemma_parse_serialized_empty(name: Seq<u8>, attrs: Seq<AttrV>)
    requires
        wf_attrs(attrs),
    ensures
        spec_parse_attrs(
            spec_serialize_empty(name, attrs),
            1 + name.len() as int,
            spec_attr_end(spec_serialize_empty(name, attrs)),
        ) == Option::Some(attrs),
{
    let raw = spec_serialize_empty(name, attrs);
    let body = spec_serialize_attrs(attrs);
    let i = 1 + name.len() as int;
    assert(raw.len() == 3 + name.len() + body.len());
    assert(spec_attr_end(raw) == i + body.len());
    assert(raw.subrange(i, i + body.len() as int) =~= body) by {
        assert(forall|k: int|
            0 <= k < body.len() ==> #[trigger] raw.subrange(i, i + body.len() as int)[k] == raw[i
                + k] && raw[i + k] == body[k]);
    }
    lemma_parse_serialized_attrs(raw, i, attrs);
}

/// A successful read of the path-bearing attribute means the list carries
/// the key.
pub proof fn lemma_get_value_has_key(attrs: Seq<AttrV>, exclude_noises: bool)
    requires
        spec_get_value(attrs, exclude_noises) is Some,
    ensures
        spec_has_key(attrs, value_key()),
    decreases attrs.len(),
{
    if attrs.len() > 0 {
        if attrs[0].key == value_key() {
        } else {
            lemma_get_value_has_key(attrs.skip(1), exclude_noises);
            let k = choose|k: int|
                0 <= k < attrs.skip(1).len() && #[trigger] attrs.skip(1)[k].key == value_key();
            assert(attrs[k + 1].key == value_key());
        }
    }
}

/// Setting the path-bearing attribute to the value every such attribute
/// already carries leaves the list as it is.
pub proof fn lemma_set_value_identity(attrs: Seq<AttrV>, v: Seq<u8>)
    requires
        spec_has_key(attrs, value_key()),
        forall|k: int|
            0 <= k < attrs.len() && (#[trigger] attrs[k]).key == value_key() ==> attrs[k].value
                == v,
    ensures
        spec_set_value(attrs, value_key(), v) == attrs,
{
    let f = |a: AttrV|
        if a.key == value_key() {
            AttrV { key: value_key(), value: v }
        } else {
            a
        };
    assert forall|k: int| 0 <= k < attrs.len() implies #[trigger] attrs.map_values(f)[k]
        == attrs[k] by {
        if attrs[k].key == value_key() {
            assert(attrs[k] =~= AttrV { key: value_key(), value: v });
        }
    }
    assert(attrs.map_values(f) =~= attrs);
}

/// Idempotence at the absolute-path element: an element whose bytes are in
/// the rewriter's own serialized form (double-quoted values, single spaces)
/// and whose path value already is the canonical imported destination of
/// some basename, written without entities, is emitted unchanged; the
/// relocation it still requests copies the file onto itself. The rewriter's
/// own output meets this form, so a second pass over it changes nothing.
pub proof fn lemma_rewrite_abs_canonical(
    ev: EventV,
    attrs: Seq<AttrV>,
    root: Seq<u8>,
    base: Seq<u8>,
    exclude_noises: bool,
)
    requires
        ev.kind == EventKind::EmptyTag,
        ev.raw == spec_serialize_empty(ev.name, attrs),
        wf_attrs(attrs),
        spec_get_value(attrs, exclude_noises) is Some,
        spec_get_value(attrs, exclude_noises)->0 == root + seq![SLASH] + imported_prefix() + base,
        !no_filename_bytes(base),
        forall|k: int| 0 <= k < base.len() ==> #[trigger] base[k] != SLASH,
        decode_amp_bytes(spec_get_value(attrs, exclude_noises)->0) == spec_get_value(
            attrs,
            exclude_noises,
        )->0,
        forall|k: int|
            0 <= k < attrs.len() && (#[trigger] attrs[k]).key == value_key() ==> attrs[k].value
                == spec_get_value(attrs, exclude_noises)->0,
    ensures
        spec_rewrite_abs(ev, exclude_noises, root) == Option::Some(
            (
                ev,
                Option::Some(
                    RelocationV {
                        source: spec_get_value(attrs, exclude_noises)->0,
                        dest: spec_get_value(attrs, exclude_noises)->0,
                    },
                ),
            ),
        ),
{
    lemma_parse_serialized_empty(ev.name, attrs);
    let v = spec_get_value(attrs, exclude_noises)->0;
    let cut = v.len() - base.len();
    assert(v[cut - 1] == imported_prefix()[16]);
    assert(v[cut - 1] == SLASH);
    assert(forall|k: int| cut <= k < v.len() ==> #[trigger] v[k] == base[k - cut]);
    lemma_last_segment_from_cut(v, SLASH, cut as int);
    assert(v.subrange(cut as int, v.len() as int) =~= base);
    assert(last_segment(v, SLASH) == base);
    lemma_get_value_has_key(attrs, exclude_noises);
    lemma_set_value_identity(attrs, v);
    assert((spec_rewrite_abs(ev, exclude_noises, root)->0).0 =~= ev);
}

/// Idempotence at the relative-path element: an element in canonical
/// serialized form whose value already is the imported prefix followed by a
/// basename is emitted unchanged.
pub proof fn lemma_rewrite_rel_canonical(
    ev: EventV,
    attrs: Seq<AttrV>,
    base: Seq<u8>,
    exclude_noises: bool,
)
    requires
        ev.kind == EventKind::EmptyTag,
        ev.raw == spec_serialize_empty(ev.name, attrs),
        wf_attrs(attrs),
        spec_get_value(attrs, exclude_noises) is Some,
        spec_get_value(attrs, exclude_noises)->0 == imported_prefix() + base,
        base.len() > 0,
        forall|k: int| 0 <= k < base.len() ==> #[trigger] base[k] != SLASH,
        forall|k: int|
            0 <= k < attrs.len() && (#[trigger] attrs[k]).key == value_key() ==> attrs[k].value
                == spec_get_value(attrs, exclude_noises)->0,
    ensures
        spec_rewrite_rel(ev, exclude_noises) == Option::Some(
            (ev, Option::None::<RelocationV>),
        ),
{
    lemma_parse_serialized_empty(ev.name, attrs);
    let v = spec_get_value(attrs, exclude_noises)->0;
    let cut = v.len() - base.len();
    assert(v[cut - 1] == imported_prefix()[16]);
    assert(v[cut - 1] == SLASH);
    assert(forall|k: int| cut <= k < v.len() ==> #[trigger] v[k] == base[k - cut]);
    lemma_last_segment_from_cut(v, SLASH, cut as int);
    assert(v.subrange(cut as int, v.len() as int) =~= base);
    assert(last_segment(v, SLASH) == base);
    lemma_get_value_has_key(attrs, exclude_noises);
    lemma_set_value_identity(attrs, v);
    assert((spec_rewrite_rel(ev, exclude_noises)->0).0 =~= ev);
}

/// Whether the rewrite maps an event to itself under the given flag. A
/// relocation may still be requested: relocating an already canonical
/// reference copies the file onto itself.
pub open spec fn event_fixed(ev: EventV, inside: bool, exclude_noises: bool, root: Seq<u8>) -> bool {
    match spec_rewrite_one(ev, inside, exclude_noises, root) {
        Option::Some((ev2, rel)) => ev2 == ev,
        Option::None => false,
    }
}

/// Idempotence over an event list: when the rewrite maps every event to
/// itself under the flag the events before it leave, the whole rewrite
/// succeeds and yields the event list itself.
pub proof fn lemma_rewrite_fixed_point(
    evs: Seq<EventV>,
    inside: bool,
    exclude_noises: bool,
    root: Seq<u8>,
)
    requires
        forall|j: int|
            0 <= j < evs.len() ==> event_fixed(
                #[trigger] evs[j],
                spec_inside_at(evs, inside, j),
                exclude_noises,
                root,
            ),
    ensures
        spec_rewrite_events(evs, inside, exclude_noises, root) is Some,
        (spec_rewrite_events(evs, inside, exclude_noises, root)->0).0 == evs,
    decreases evs.len(),
{
    if evs.len() == 0 {
        assert((spec_rewrite_events(evs, inside, exclude_noises, root)->0).0 =~= evs);
    } else {
        let tail = evs.skip(1);
        let inside1 = spec_inside_after(evs[0], inside);
        assert(event_fixed(evs[0], inside, exclude_noises, root)) by {
            assert(spec_inside_at(evs, inside, 0) == inside);
        }
        assert forall|j: int| 0 <= j < tail.len() implies event_fixed(
            #[trigger] tail[j],
            spec_inside_at(tail, inside1, j),
            exclude_noises,
            root,
        ) by {
            lemma_inside_at_skip(evs, inside, j);
            assert(tail[j] == evs[j + 1]);
        }
        lemma_rewrite_fixed_point(tail, inside1, exclude_noises, root);
        assert((spec_rewrite_events(evs, inside, exclude_noises, root)->0).0 =~= evs);
    }
}

/// Idempotence of the document rewrite: a document all of whose events the
/// rewrite maps to themselves comes out of the rewrite byte-identical,
/// whatever relocations are requested along the way. The per-element lemmas
/// above discharge the hypothesis for targeted elements whose references
/// already point at the canonical imported location, stand in the
/// rewriter's own serialized form, and hold no entities; a targeted element
/// formatted otherwise (say, two spaces between attributes, or a value
/// holding an ampersand entity) is normalized by the first pass instead.
pub proof fn lemma_update_fixed_point(xml: Seq<u8>, exclude_noises: bool, root: Seq<u8>)
    requires
        spec_events(xml, 0) is Some,
        forall|j: int|
            0 <= j < spec_events(xml, 0)->0.len() ==> event_fixed(
                #[trigger] spec_events(xml, 0)->0[j],
                spec_inside_at(spec_events(xml, 0)->0, false, j),
                exclude_noises,
                root,
            ),
    ensures
        spec_update_sample_refs(xml, exclude_noises, root) is Some,
        (spec_update_sample_refs(xml, exclude_noises, root)->0).0 == xml,
{
    let evs = spec_events(xml, 0)->0;
    lemma_rewrite_fixed_point(evs, false, exclude_noises, root);
    lemma_events_concat(xml, 0);
    assert(xml.subrange(0, xml.len() as int) =~= xml);
}


/// Attribute preservation: setting the path-bearing attribute of a list
/// that carries it yields a list of the same length, with every key in its
/// old place, every other attribute untouched and only the target
/// attribute's value changed; setting it on a list that lacks it appends
/// the attribute once at the end and touches nothing else, so the key is
/// never duplicated.
pub proof fn lemma_attribute_preservation(attrs: Seq<AttrV>, key: Seq<u8>, v: Seq<u8>)
    ensures
        spec_has_key(attrs, key) ==> {
            let out = spec_set_value(attrs, key, v);
            out.len() == attrs.len() && (forall|k: int|
                0 <= k < attrs.len() ==> (#[trigger] out[k]).key == attrs[k].key) && (forall|
                k: int,
            |
                0 <= k < attrs.len() && attrs[k].key == key ==> (#[trigger] out[k]).value == v) && (
            forall|k: int|
                0 <= k < attrs.len() && attrs[k].key != key ==> #[trigger] out[k] == attrs[k])
        },
        !spec_has_key(attrs, key) ==> {
            let out = spec_set_value(attrs, key, v);
            out.len() == attrs.len() + 1 && out[attrs.len() as int] == AttrV { key, value: v } && (
            forall|k: int| 0 <= k < attrs.len() ==> #[trigger] out[k] == attrs[k])
        },
{
}

} // verus!
