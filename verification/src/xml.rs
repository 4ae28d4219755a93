use vstd::prelude::*;
use vstd::slice::{slice_subrange, slice_to_vec};
use crate::bytes::{find_byte, find_byte_exec, is_ws, lemma_find_byte_props, APOS, EQUALS, GT, LT, QUOT, SLASH};
use crate::text::contains_seq;

verus! {

/// The tag name that opens and closes a sample-reference block.
pub open spec fn sample_ref_name() -> Seq<u8> {
    seq![83u8, 97, 109, 112, 108, 101, 82, 101, 102]
}

/// The name of the self-closing element that carries an absolute sample
/// path in its value attribute.
pub open spec fn path_name() -> Seq<u8> {
    seq![80u8, 97, 116, 104]
}

/// The name of the self-closing element that carries a relative sample
/// path in its value attribute.
pub open spec fn relative_path_name() -> Seq<u8> {
    seq![82u8, 101, 108, 97, 116, 105, 118, 101, 80, 97, 116, 104]
}

/// The key of the attribute that carries a path.
pub open spec fn value_key() -> Seq<u8> {
    seq![86u8, 97, 108, 117, 101]
}

/// The subpath that marks a factory noise preset.
pub open spec fn serum_marker() -> Seq<u8> {
    seq![83u8, 101, 114, 117, 109, 32, 80, 114, 101, 115, 101, 116, 115, 47, 78, 111, 105, 115, 101, 115]
}

/// The canonical imported-samples prefix that relative references get.
pub open spec fn imported_prefix() -> Seq<u8> {
    seq![83u8, 97, 109, 112, 108, 101, 115, 47, 73, 109, 112, 111, 114, 116, 101, 100, 47]
}

/// Builds the bytes of the sample-reference block tag name.
pub fn sample_ref_name_exec() -> (r: Vec<u8>)
    ensures
        r@ == sample_ref_name(),
{
    let mut v: Vec<u8> = Vec::new();
    v.push(83);
    v.push(97);
    v.push(109);
    v.push(112);
    v.push(108);
    v.push(101);
    v.push(82);
    v.push(101);
    v.push(102);
    proof {
        assert(v@ =~= sample_ref_name());
    }
    v
}

/// Builds the bytes of the absolute-path element name.
pub fn path_name_exec() -> (r: Vec<u8>)
    ensures
        r@ == path_name(),
{
    let mut v: Vec<u8> = Vec::new();
    v.push(80);
    v.push(97);
    v.push(116);
    v.push(104);
    proof {
        assert(v@ =~= path_name());
    }
    v
}

/// Builds the bytes of the relative-path element name.
pub fn relative_path_name_exec() -> (r: Vec<u8>)
    ensures
        r@ == relative_path_name(),
{
    let mut v: Vec<u8> = Vec::new();
    v.push(82);
    v.push(101);
    v.push(108);
    v.push(97);
    v.push(116);
    v.push(105);
    v.push(118);
    v.push(101);
    v.push(80);
    v.push(97);
    v.push(116);
    v.push(104);
    proof {
        assert(v@ =~= relative_path_name());
    }
    v
}

/// Builds the bytes of the path-bearing attribute key.
pub fn value_key_exec() -> (r: Vec<u8>)
    ensures
        r@ == value_key(),
{
    let mut v: Vec<u8> = Vec::new();
    v.push(86);
    v.push(97);
    v.push(108);
    v.push(117);
    v.push(101);
    proof {
        assert(v@ =~= value_key());
    }
    v
}

/// Builds the bytes of the factory noise-preset marker.
pub fn serum_marker_exec() -> (r: Vec<u8>)
    ensures
        r@ == serum_marker(),
{
    let mut v: Vec<u8> = Vec::new();
    v.push(83);
    v.push(101);
    v.push(114);
    v.push(117);
    v.push(109);
    v.push(32);
    v.push(80);
    v.push(114);
    v.push(101);
    v.push(115);
    v.push(101);
    v.push(116);
    v.push(115);
    v.push(47);
    v.push(78);
    v.push(111);
    v.push(105);
    v.push(115);
    v.push(101);
    v.push(115);
    proof {
        assert(v@ =~= serum_marker());
    }
    v
}

/// Builds the bytes of the imported-samples prefix.
pub fn imported_prefix_exec() -> (r: Vec<u8>)
    ensures
        r@ == imported_prefix(),
{
    let mut v: Vec<u8> = Vec::new();
    v.push(83);
    v.push(97);
    v.push(109);
    v.push(112);
    v.push(108);
    v.push(101);
    v.push(115);
    v.push(47);
    v.push(73);
    v.push(109);
    v.push(112);
    v.push(111);
    v.push(114);
    v.push(116);
    v.push(101);
    v.push(100);
    v.push(47);
    proof {
        assert(v@ =~= imported_prefix());
    }
    v
}

/// One XML attribute: its key and its raw (still entity-encoded) value.
pub struct XmlAttr {
    pub key: Vec<u8>,
    pub value: Vec<u8>,
}

/// The mathematical content of an `XmlAttr`.
#[verifier::ext_equal]
pub struct AttrV {
    pub key: Seq<u8>,
    pub value: Seq<u8>,
}

impl View for XmlAttr {
    type V = AttrV;

    open spec fn view(&self) -> AttrV {
        AttrV { key: self.key@, value: self.value@ }
    }
}

/// The views of a vector of attributes.
pub open spec fn attrs_view(attrs: Seq<XmlAttr>) -> Seq<AttrV> {
    attrs.map_values(|a: XmlAttr| a@)
}

/// Parses the attribute list that stands in `s` between `i` and `end`:
/// whitespace-separated `key="value"` pairs, single or double quoted.
/// Nothing when the region is not of that shape.
pub open spec fn spec_parse_attrs(s: Seq<u8>, i: int, end: int) -> Option<Seq<AttrV>>
    decreases end - i,
{
    if i < 0 || end > s.len() {
        Option::None
    } else if i >= end {
        Option::Some(Seq::empty())
    } else if is_ws(s[i]) {
        spec_parse_attrs(s, i + 1, end)
    } else {
        match find_byte(s, i, EQUALS) {
            Option::None => Option::None,
            Option::Some(e) => {
                if !(i < e && e + 2 <= end) {
                    Option::None
                } else if !(s[e + 1] == QUOT || s[e + 1] == APOS) {
                    Option::None
                } else {
                    match find_byte(s, e + 2, s[e + 1]) {
                        Option::None => Option::None,
                        Option::Some(v) => {
                            if !(e + 2 <= v && v < end) {
                                Option::None
                            } else {
                                match spec_parse_attrs(s, v + 1, end) {
                                    Option::None => Option::None,
                                    Option::Some(rest) => Option::Some(
                                        seq![
                                            AttrV {
                                                key: s.subrange(i, e),
                                                value: s.subrange(e + 2, v),
                                            },
                                        ] + rest,
                                    ),
                                }
                            }
                        },
                    }
                }
            },
        }
    }
}

/// Prepends already parsed attributes to the outcome of parsing the rest.
pub open spec fn opt_attrs(prefix: Seq<AttrV>, rest: Option<Seq<AttrV>>) -> Option<Seq<AttrV>> {
    match rest {
        Option::None => Option::None,
        Option::Some(r) => Option::Some(prefix + r),
    }
}

/// Parses the attribute region `[start, end)` of a tag's bytes.
pub fn parse_attrs(s: &[u8], start: usize, end: usize) -> (r: Option<Vec<XmlAttr>>)
    requires
        end <= s@.len(),
    ensures
        (r is Some) == (spec_parse_attrs(s@, start as int, end as int) is Some),
        r is Some ==> Option::Some(attrs_view(r->0@)) == spec_parse_attrs(
            s@,
            start as int,
            end as int,
        ),
{
    let ghost goal = spec_parse_attrs(s@, start as int, end as int);
    let mut out: Vec<XmlAttr> = Vec::new();
    let mut i = start;
    proof {
        assert(attrs_view(out@) =~= Seq::<AttrV>::empty());
        assert(opt_attrs(attrs_view(out@), goal) == goal);
    }
    while i < end
        invariant
            end <= s@.len(),
            opt_attrs(attrs_view(out@), spec_parse_attrs(s@, i as int, end as int)) == goal,
            goal == spec_parse_attrs(s@, start as int, end as int),
        decreases end - i,
    {
        let c = s[i];
        if c == 32 || c == 9 || c == 10 || c == 13 {
            i = i + 1;
        } else {
            proof {
                lemma_find_byte_props(s@, i as int, EQUALS);
            }
            match find_byte_exec(s, i, EQUALS) {
                Option::None => {
                    return Option::None;
                },
                Option::Some(e) => {
                    if !(i < e && end >= 2 && e <= end - 2) {
                        return Option::None;
                    }
                    let q = s[e + 1];
                    if !(q == QUOT || q == APOS) {
                        return Option::None;
                    }
                    proof {
                        lemma_find_byte_props(s@, e + 2, q);
                    }
                    match find_byte_exec(s, e + 2, q) {
                        Option::None => {
                            return Option::None;
                        },
                        Option::Some(v) => {
                            if !(e + 2 <= v && v < end) {
                                return Option::None;
                            }
                            proof {
                                assert(find_byte(s@, i as int, EQUALS) == Option::Some(e as int));
                                assert(find_byte(s@, e + 2, s@[e + 1]) == Option::Some(v as int));
                            }
                            let attr = XmlAttr {
                                key: slice_to_vec(slice_subrange(s, i, e)),
                                value: slice_to_vec(slice_subrange(s, e + 2, v)),
                            };
                            let ghost old_out = out@;
                            let ghost av = attr@;
                            out.push(attr);
                            proof {
                                assert(av =~= AttrV {
                                    key: s@.subrange(i as int, e as int),
                                    value: s@.subrange(e + 2, v as int),
                                });
                                assert(spec_parse_attrs(s@, i as int, end as int) == (
                                match spec_parse_attrs(s@, v + 1, end as int) {
                                    Option::None => Option::None,
                                    Option::Some(rest) => Option::Some(seq![av] + rest),
                                }));
                                assert(attrs_view(out@) =~= attrs_view(old_out) + seq![av]);
                                let rest = spec_parse_attrs(s@, v + 1, end as int);
                                match rest {
                                    Option::None => {},
                                    Option::Some(rs) => {
                                        assert(attrs_view(old_out) + (seq![av] + rs) =~= attrs_view(
                                            out@,
                                        ) + rs);
                                    },
                                }
                            }
                            i = v + 1;
                        },
                    }
                },
            }
        }
    }
    proof {
        assert(spec_parse_attrs(s@, i as int, end as int) == Option::Some(Seq::<AttrV>::empty()));
        assert(attrs_view(out@) + Seq::<AttrV>::empty() =~= attrs_view(out@));
    }
    Option::Some(out)
}

/// The bytes an attribute contributes to a serialized tag: a space, the
/// key, an equals sign, and the double-quoted value.
pub open spec fn spec_attr_bytes(a: AttrV) -> Seq<u8> {
    seq![32u8] + a.key + seq![EQUALS, QUOT] + a.value + seq![QUOT]
}

/// The bytes of a serialized attribute list, in order.
pub open spec fn spec_serialize_attrs(attrs: Seq<AttrV>) -> Seq<u8>
    decreases attrs.len(),
{
    if attrs.len() == 0 {
        Seq::empty()
    } else {
        spec_attr_bytes(attrs[0]) + spec_serialize_attrs(attrs.skip(1))
    }
}

/// The bytes of a serialized self-closing tag: the name, the attributes in
/// order, and the self-closing bracket.
pub open spec fn spec_serialize_empty(name: Seq<u8>, attrs: Seq<AttrV>) -> Seq<u8> {
    seq![LT] + name + spec_serialize_attrs(attrs) + seq![SLASH, GT]
}

/// Serializes a self-closing tag from its name and attribute list.
pub fn serialize_empty_tag(name: &[u8], attrs: &Vec<XmlAttr>) -> (r: Vec<u8>)
    ensures
        r@ == spec_serialize_empty(name@, attrs_view(attrs@)),
{
    let ghost avs = attrs_view(attrs@);
    let mut out: Vec<u8> = Vec::new();
    out.push(LT);
    out.extend_from_slice(name);
    let mut i: usize = 0;
    proof {
        assert(avs.skip(0) =~= avs);
        assert(out@ =~= seq![LT] + name@);
    }
    while i < attrs.len()
        invariant
            i <= attrs@.len(),
            avs == attrs_view(attrs@),
            out@ + spec_serialize_attrs(avs.skip(i as int)) == seq![LT] + name@
                + spec_serialize_attrs(avs),
        decreases attrs@.len() - i,
    {
        let ghost old_out = out@;
        let ghost rest = avs.skip(i as int);
        out.push(32);
        out.extend_from_slice(attrs[i].key.as_slice());
        out.push(EQUALS);
        out.push(QUOT);
        out.extend_from_slice(attrs[i].value.as_slice());
        out.push(QUOT);
        proof {
            assert(rest[0] == avs[i as int]);
            assert(out@ =~= old_out + spec_attr_bytes(avs[i as int]));
            assert(rest.skip(1) =~= avs.skip(i + 1));
            assert(old_out + (spec_attr_bytes(rest[0]) + spec_serialize_attrs(avs.skip(i + 1)))
                =~= out@ + spec_serialize_attrs(avs.skip(i + 1)));
        }
        i = i + 1;
    }
    proof {
        assert(avs.skip(i as int) =~= Seq::<AttrV>::empty());
        assert(out@ + Seq::<u8>::empty() =~= out@);
    }
    out.push(SLASH);
    out.push(GT);
    proof {
        assert(out@ =~= spec_serialize_empty(name@, avs));
    }
    out
}

/// Whether some attribute of the list carries the key.
pub open spec fn spec_has_key(attrs: Seq<AttrV>, key: Seq<u8>) -> bool {
    exists|k: int| 0 <= k < attrs.len() && #[trigger] attrs[k].key == key
}

/// The attribute list after the value under `key` is set to `v`: every
/// attribute that carries the key gets the new value in place, all other
/// attributes stay as they are and in order; when no attribute carries the
/// key, one is appended, so the key is never duplicated.
pub open spec fn spec_set_value(attrs: Seq<AttrV>, key: Seq<u8>, v: Seq<u8>) -> Seq<AttrV> {
    if spec_has_key(attrs, key) {
        attrs.map_values(
            |a: AttrV|
                if a.key == key {
                    AttrV { key, value: v }
                } else {
                    a
                },
        )
    } else {
        attrs.push(AttrV { key, value: v })
    }
}

/// Sets the attribute under `key` to `new_value`, preserving every other
/// attribute and the attribute order, and appending the attribute when it
/// is absent.
pub fn modify_value_attribute(attrs: Vec<XmlAttr>, key: &[u8], new_value: &[u8]) -> (r: Vec<
    XmlAttr,
>)
    ensures
        attrs_view(r@) == spec_set_value(attrs_view(attrs@), key@, new_value@),
{
    let ghost avs = attrs_view(attrs@);
    let mut out: Vec<XmlAttr> = Vec::new();
    let mut found = false;
    let mut i: usize = 0;
    while i < attrs.len()
        invariant
            i <= attrs@.len(),
            avs == attrs_view(attrs@),
            out@.len() == i,
            found == (exists|k: int| 0 <= k < i && #[trigger] avs[k].key == key@),
            forall|k: int|
                0 <= k < i ==> #[trigger] attrs_view(out@)[k] == (if avs[k].key == key@ {
                    AttrV { key: key@, value: new_value@ }
                } else {
                    avs[k]
                }),
        decreases attrs@.len() - i,
    {
        let ghost old_out = out@;
        if crate::bytes::bytes_eq(attrs[i].key.as_slice(), key) {
            out.push(XmlAttr { key: slice_to_vec(key), value: slice_to_vec(new_value) });
            found = true;
            proof {
                assert(avs[i as int].key == key@);
                assert(attrs_view(out@) =~= attrs_view(old_out).push(
                    AttrV { key: key@, value: new_value@ },
                ));
                assert(forall|k: int|
                    0 <= k < i ==> #[trigger] attrs_view(out@)[k] == attrs_view(old_out)[k]);
            }
        } else {
            out.push(
                XmlAttr {
                    key: slice_to_vec(attrs[i].key.as_slice()),
                    value: slice_to_vec(attrs[i].value.as_slice()),
                },
            );
            proof {
                assert(avs[i as int].key != key@);
                assert(attrs_view(out@) =~= attrs_view(old_out).push(avs[i as int]));
                assert(forall|k: int|
                    0 <= k < i ==> #[trigger] attrs_view(out@)[k] == attrs_view(old_out)[k]);
            }
        }
        i = i + 1;
    }
    if !found {
        let ghost pre = out@;
        out.push(XmlAttr { key: slice_to_vec(key), value: slice_to_vec(new_value) });
        proof {
            assert(!spec_has_key(avs, key@));
            assert(forall|k: int| 0 <= k < avs.len() ==> #[trigger] avs[k].key != key@);
            assert(forall|k: int| 0 <= k < avs.len() ==> #[trigger] attrs_view(pre)[k] == avs[k]);
            assert(attrs_view(out@) =~= attrs_view(pre).push(
                AttrV { key: key@, value: new_value@ },
            ));
            assert(attrs_view(out@) =~= avs.push(AttrV { key: key@, value: new_value@ }));
        }
    } else {
        proof {
            assert(spec_has_key(avs, key@));
            let f = |a: AttrV|
                if a.key == key@ {
                    AttrV { key: key@, value: new_value@ }
                } else {
                    a
                };
            assert(attrs_view(out@) =~= avs.map_values(f));
        }
    }
    out
}

/// The raw value of the first attribute whose key is the path-bearing key,
/// unless the factory noise-preset filter is on and the value carries the
/// marker; nothing when no such attribute stands in the list.
pub open spec fn spec_get_value(attrs: Seq<AttrV>, exclude_noises: bool) -> Option<Seq<u8>>
    decreases attrs.len(),
{
    if attrs.len() == 0 {
        Option::None
    } else if attrs[0].key == value_key() {
        if exclude_noises && contains_seq(attrs[0].value, serum_marker()) {
            Option::None
        } else {
            Option::Some(attrs[0].value)
        }
    } else {
        spec_get_value(attrs.skip(1), exclude_noises)
    }
}

/// Reads the path-bearing attribute of an element, applying the factory
/// noise-preset filter of the settings.
pub fn get_value_attribute(attrs: &Vec<XmlAttr>, exclude_noises: bool) -> (r: Option<Vec<u8>>)
    ensures
        (r is Some) == (spec_get_value(attrs_view(attrs@), exclude_noises) is Some),
        r is Some ==> Option::Some(r->0@) == spec_get_value(attrs_view(attrs@), exclude_noises),
{
    let ghost avs = attrs_view(attrs@);
    let key = value_key_exec();
    let marker = serum_marker_exec();
    let mut i: usize = 0;
    proof {
        assert(avs.skip(0) =~= avs);
    }
    while i < attrs.len()
        invariant
            i <= attrs@.len(),
            avs == attrs_view(attrs@),
            key@ == value_key(),
            marker@ == serum_marker(),
            spec_get_value(avs, exclude_noises) == spec_get_value(
                avs.skip(i as int),
                exclude_noises,
            ),
        decreases attrs@.len() - i,
    {
        let ghost rest = avs.skip(i as int);
        proof {
            assert(rest[0] == avs[i as int]);
            assert(rest.skip(1) =~= avs.skip(i + 1));
        }
        if crate::bytes::bytes_eq(attrs[i].key.as_slice(), key.as_slice()) {
            if exclude_noises && crate::bytes::contains_bytes(
                attrs[i].value.as_slice(),
                marker.as_slice(),
            ) {
                return Option::None;
            }
            return Option::Some(slice_to_vec(attrs[i].value.as_slice()));
        }
        i = i + 1;
    }
    proof {
        assert(avs.skip(i as int) =~= Seq::<AttrV>::empty());
    }
    Option::None
}

} // verus!
