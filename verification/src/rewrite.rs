use vstd::prelude::*;
use vstd::slice::slice_to_vec;
use crate::bytes::{
    decode_amp_bytes, decode_amp_bytes_exec, last_segment_bytes, no_filename_bytes, DOT, SLASH,
};
use crate::error::Error;
use crate::models::CopifySettings;
use crate::text::last_segment;
use crate::tokenize::{
    concat_raws, events_view, serialize_events, spec_events, tokenize, EventKind, EventV, XmlEvent,
};
use crate::transcode::{compress, decompress, gunzip_of, gzip_of};
use crate::xml::{
    get_value_attribute, imported_prefix, imported_prefix_exec, modify_value_attribute,
    parse_attrs, path_name, path_name_exec, relative_path_name, relative_path_name_exec,
    sample_ref_name, sample_ref_name_exec, serialize_empty_tag, spec_get_value, spec_parse_attrs,
    spec_serialize_empty, spec_set_value, value_key, value_key_exec,
};

verus! {

/// One sample-file relocation the rewrite asks for: the file at `source` is
/// to be copied or moved to `dest`. The caller carries the relocations out
/// on the filesystem and reports a missing source per reference.
pub struct Relocation {
    pub source: Vec<u8>,
    pub dest: Vec<u8>,
}

/// The mathematical content of a `Relocation`.
#[verifier::ext_equal]
pub struct RelocationV {
    pub source: Seq<u8>,
    pub dest: Seq<u8>,
}

impl View for Relocation {
    type V = RelocationV;

    open spec fn view(&self) -> RelocationV {
        RelocationV { source: self.source@, dest: self.dest@ }
    }
}

/// The views of a vector of relocations.
pub open spec fn relocs_view(rs: Seq<Relocation>) -> Seq<RelocationV> {
    rs.map_values(|r: Relocation| r@)
}

/// Where the attribute region of a tag's bytes ends: just before the
/// closing `/>`.
pub open spec fn spec_attr_end(raw: Seq<u8>) -> int {
    if raw.len() >= 2 {
        raw.len() - 2
    } else {
        0
    }
}

/// The rewrite of a self-closing absolute-path element inside a
/// sample-reference block. When the element carries a path value that the
/// factory noise-preset filter does not drop and whose final path segment
/// names a file (it is neither empty nor a dot form that would escape the
/// canonical folder), the value becomes the canonical imported destination
/// of that segment under the project root, and one relocation of the
/// decoded source path to that destination is requested; every other
/// attribute stays, in order. Otherwise the element passes through
/// unchanged. Nothing when the element's attributes are malformed.
pub open spec fn spec_rewrite_abs(ev: EventV, exclude_noises: bool, root: Seq<u8>) -> Option<
    (EventV, Option<RelocationV>),
> {
    match spec_parse_attrs(ev.raw, 1 + ev.name.len() as int, spec_attr_end(ev.raw)) {
        Option::None => Option::None,
        Option::Some(attrs) => match spec_get_value(attrs, exclude_noises) {
            Option::None => Option::Some((ev, Option::None)),
            Option::Some(value) => {
                let source = decode_amp_bytes(value);
                let base = last_segment(source, SLASH);
                if no_filename_bytes(base) {
                    Option::Some((ev, Option::None))
                } else {
                    let dest = root + seq![SLASH] + imported_prefix() + base;
                    let attrs2 = spec_set_value(attrs, value_key(), dest);
                    Option::Some(
                        (
                            EventV {
                                kind: EventKind::EmptyTag,
                                raw: spec_serialize_empty(ev.name, attrs2),
                                name: ev.name,
                            },
                            Option::Some(RelocationV { source, dest }),
                        ),
                    )
                }
            },
        },
    }
}

/// The rewrite of a self-closing relative-path element inside a
/// sample-reference block. When the element carries a path value that the
/// factory noise-preset filter does not drop, the value becomes the
/// imported-samples prefix followed by the value's final path segment;
/// every other attribute stays, in order. No relocation is requested: the
/// matching absolute-path element requests it. Nothing when the element's
/// attributes are malformed.
pub open spec fn spec_rewrite_rel(ev: EventV, exclude_noises: bool) -> Option<
    (EventV, Option<RelocationV>),
> {
    match spec_parse_attrs(ev.raw, 1 + ev.name.len() as int, spec_attr_end(ev.raw)) {
        Option::None => Option::None,
        Option::Some(attrs) => match spec_get_value(attrs, exclude_noises) {
            Option::None => Option::Some((ev, Option::None)),
            Option::Some(value) => {
                let newv = imported_prefix() + last_segment(value, SLASH);
                let attrs2 = spec_set_value(attrs, value_key(), newv);
                Option::Some(
                    (
                        EventV {
                            kind: EventKind::EmptyTag,
                            raw: spec_serialize_empty(ev.name, attrs2),
                            name: ev.name,
                        },
                        Option::None,
                    ),
                )
            },
        },
    }
}

/// The sample-reference block flag after an event: set by the block-opening
/// tag, cleared by the block-closing tag, kept by everything else.
pub open spec fn spec_inside_after(ev: EventV, inside: bool) -> bool {
    if ev.kind == EventKind::StartTag && ev.name == sample_ref_name() {
        true
    } else if ev.kind == EventKind::EndTag && ev.name == sample_ref_name() {
        false
    } else {
        inside
    }
}

/// Whether the rewrite targets an event: a self-closing path-bearing
/// element inside a sample-reference block.
pub open spec fn spec_targeted(ev: EventV, inside: bool) -> bool {
    ev.kind == EventKind::EmptyTag && inside && (ev.name == path_name() || ev.name
        == relative_path_name())
}

/// The rewrite of one event under the block flag: surgery on the targeted
/// elements, everything else unchanged.
pub open spec fn spec_rewrite_one(ev: EventV, inside: bool, exclude_noises: bool, root: Seq<u8>) -> Option<
    (EventV, Option<RelocationV>),
> {
    if ev.kind == EventKind::EmptyTag && inside && ev.name == path_name() {
        spec_rewrite_abs(ev, exclude_noises, root)
    } else if ev.kind == EventKind::EmptyTag && inside && ev.name == relative_path_name() {
        spec_rewrite_rel(ev, exclude_noises)
    } else {
        Option::Some((ev, Option::None))
    }
}

/// Prepends rewritten events and relocation requests to the outcome of
/// rewriting the rest.
pub open spec fn opt_rewritten(
    evs: Seq<EventV>,
    rels: Seq<RelocationV>,
    rest: Option<(Seq<EventV>, Seq<RelocationV>)>,
) -> Option<(Seq<EventV>, Seq<RelocationV>)> {
    match rest {
        Option::None => Option::None,
        Option::Some((e, r)) => Option::Some((evs + e, rels + r)),
    }
}

/// The rewrite of a whole event list under the block flag: one pass, each
/// event rewritten under the flag the events before it left, with the
/// relocation requests in document order.
pub open spec fn spec_rewrite_events(
    evs: Seq<EventV>,
    inside: bool,
    exclude_noises: bool,
    root: Seq<u8>,
) -> Option<(Seq<EventV>, Seq<RelocationV>)>
    decreases evs.len(),
{
    if evs.len() == 0 {
        Option::Some((Seq::empty(), Seq::empty()))
    } else {
        match spec_rewrite_one(evs[0], inside, exclude_noises, root) {
            Option::None => Option::None,
            Option::Some((ev2, rel)) => {
                let rels = match rel {
                    Option::Some(r) => seq![r],
                    Option::None => Seq::<RelocationV>::empty(),
                };
                opt_rewritten(
                    seq![ev2],
                    rels,
                    spec_rewrite_events(
                        evs.skip(1),
                        spec_inside_after(evs[0], inside),
                        exclude_noises,
                        root,
                    ),
                )
            },
        }
    }
}

/// A field-for-field copy of an event.
fn copy_event(ev: &XmlEvent) -> (r: XmlEvent)
    ensures
        r@ == ev@,
{
    let r = XmlEvent {
        kind: ev.kind,
        raw: slice_to_vec(ev.raw.as_slice()),
        name: slice_to_vec(ev.name.as_slice()),
    };
    proof {
        assert(r@ =~= ev@);
    }
    r
}

/// Rewrites one targeted element, given the attribute region bounds that
/// mirror the specification.
fn rewrite_target(ev: &XmlEvent, relative: bool, exclude_noises: bool, project_root: &[u8]) -> (r:
    Result<(XmlEvent, Option<Relocation>), Error>)
    ensures
        ({
            let sp = if relative {
                spec_rewrite_rel(ev@, exclude_noises)
            } else {
                spec_rewrite_abs(ev@, exclude_noises, project_root@)
            };
            match sp {
                Option::Some((ev2, rel)) => r is Ok && (r->Ok_0.0)@ == ev2 && ((r->Ok_0.1 is Some)
                    == (rel is Some)) && (rel is Some ==> (r->Ok_0.1)->0@ == rel->0),
                Option::None => r is Err && r->Err_0 is Xml,
            }
        }),
{
    let raw_len = ev.raw.len();
    let end = if raw_len >= 2 {
        raw_len - 2
    } else {
        0
    };
    let start = if ev.name.len() >= raw_len {
        raw_len
    } else {
        ev.name.len() + 1
    };
    proof {
        if ev.name.len() >= raw_len {
            assert(spec_parse_attrs(ev.raw@, start as int, end as int) == Option::Some(
                Seq::<crate::xml::AttrV>::empty(),
            ));
            assert(spec_parse_attrs(ev.raw@, 1 + ev.name@.len() as int, end as int)
                == Option::Some(Seq::<crate::xml::AttrV>::empty()));
        }
    }
    let attrs = match parse_attrs(ev.raw.as_slice(), start, end) {
        Option::None => {
            return Err(Error::Xml("Malformed attributes in a path element".to_owned()));
        },
        Option::Some(attrs) => attrs,
    };
    let value = match get_value_attribute(&attrs, exclude_noises) {
        Option::None => {
            return Ok((copy_event(ev), Option::None));
        },
        Option::Some(v) => v,
    };
    let key = value_key_exec();
    let prefix = imported_prefix_exec();
    if relative {
        let base = last_segment_bytes(value.as_slice());
        let mut newv: Vec<u8> = Vec::new();
        newv.extend_from_slice(prefix.as_slice());
        newv.extend_from_slice(base.as_slice());
        proof {
            assert(newv@ =~= imported_prefix() + last_segment(value@, SLASH));
        }
        let attrs2 = modify_value_attribute(attrs, key.as_slice(), newv.as_slice());
        let raw2 = serialize_empty_tag(ev.name.as_slice(), &attrs2);
        let ev2 = XmlEvent {
            kind: EventKind::EmptyTag,
            raw: raw2,
            name: slice_to_vec(ev.name.as_slice()),
        };
        proof {
            assert(ev2@ =~= (spec_rewrite_rel(ev@, exclude_noises)->0).0);
        }
        Ok((ev2, Option::None))
    } else {
        let source = decode_amp_bytes_exec(value.as_slice());
        let base = last_segment_bytes(source.as_slice());
        let n = base.len();
        let dotless = n == 0 || (n == 1 && base[0] == DOT) || (n == 2 && base[0] == DOT && base[1]
            == DOT);
        proof {
            if n == 1 && base@[0] == DOT {
                assert(base@ =~= seq![DOT]);
            }
            if n == 2 && base@[0] == DOT && base@[1] == DOT {
                assert(base@ =~= seq![DOT, DOT]);
            }
            if !dotless {
                if base@ == seq![DOT] {
                    assert(base@.len() == 1 && base@[0] == DOT);
                }
                if base@ == seq![DOT, DOT] {
                    assert(base@.len() == 2 && base@[0] == DOT && base@[1] == DOT);
                }
            }
        }
        if dotless {
            return Ok((copy_event(ev), Option::None));
        }
        let mut dest: Vec<u8> = slice_to_vec(project_root);
        dest.push(SLASH);
        dest.extend_from_slice(prefix.as_slice());
        dest.extend_from_slice(base.as_slice());
        proof {
            assert(dest@ =~= project_root@ + seq![SLASH] + imported_prefix() + last_segment(
                source@,
                SLASH,
            ));
        }
        let attrs2 = modify_value_attribute(attrs, key.as_slice(), dest.as_slice());
        let raw2 = serialize_empty_tag(ev.name.as_slice(), &attrs2);
        let ev2 = XmlEvent {
            kind: EventKind::EmptyTag,
            raw: raw2,
            name: slice_to_vec(ev.name.as_slice()),
        };
        let rel = Relocation { source, dest };
        proof {
            assert(ev2@ =~= (spec_rewrite_abs(ev@, exclude_noises, project_root@)->0).0);
            assert(rel@ =~= ((spec_rewrite_abs(ev@, exclude_noises, project_root@)->0).1)->0);
        }
        Ok((ev2, Option::Some(rel)))
    }
}

/// Rewrites an event list in one pass: tracks the sample-reference block
/// flag across the events, rewrites the targeted path-bearing elements, and
/// passes every other event through unchanged, collecting the relocation
/// requests in document order.
pub fn rewrite_events(events: Vec<XmlEvent>, exclude_noises: bool, project_root: &[u8]) -> (r:
    Result<(Vec<XmlEvent>, Vec<Relocation>), Error>)
    ensures
        (r is Ok) == (spec_rewrite_events(
            events_view(events@),
            false,
            exclude_noises,
            project_root@,
        ) is Some),
        r is Ok ==> Option::Some((events_view((r->Ok_0.0)@), relocs_view((r->Ok_0.1)@)))
            == spec_rewrite_events(events_view(events@), false, exclude_noises, project_root@),
        r is Err ==> r->Err_0 is Xml,
{
    let ghost evs = events_view(events@);
    let ghost goal = spec_rewrite_events(evs, false, exclude_noises, project_root@);
    let sref = sample_ref_name_exec();
    let pname = path_name_exec();
    let rname = relative_path_name_exec();
    let mut out_events: Vec<XmlEvent> = Vec::new();
    let mut out_rels: Vec<Relocation> = Vec::new();
    let mut inside = false;
    let mut i: usize = 0;
    proof {
        assert(evs.skip(0) =~= evs);
        assert(events_view(out_events@) =~= Seq::<EventV>::empty());
        assert(relocs_view(out_rels@) =~= Seq::<RelocationV>::empty());
        match goal {
            Option::None => {},
            Option::Some((e, r)) => {
                assert(Seq::<EventV>::empty() + e =~= e);
                assert(Seq::<RelocationV>::empty() + r =~= r);
            },
        }
    }
    while i < events.len()
        invariant
            i <= events@.len(),
            evs == events_view(events@),
            sref@ == sample_ref_name(),
            pname@ == path_name(),
            rname@ == relative_path_name(),
            goal == spec_rewrite_events(evs, false, exclude_noises, project_root@),
            opt_rewritten(
                events_view(out_events@),
                relocs_view(out_rels@),
                spec_rewrite_events(evs.skip(i as int), inside, exclude_noises, project_root@),
            ) == goal,
        decreases events@.len() - i,
    {
        let ghost rest = evs.skip(i as int);
        proof {
            assert(rest[0] == evs[i as int]);
            assert(rest.skip(1) =~= evs.skip(i + 1));
        }
        let ev = &events[i];
        let is_empty = ev.kind == EventKind::EmptyTag;
        let is_abs = is_empty && inside && crate::bytes::bytes_eq(
            ev.name.as_slice(),
            pname.as_slice(),
        );
        let is_rel = is_empty && inside && !is_abs && crate::bytes::bytes_eq(
            ev.name.as_slice(),
            rname.as_slice(),
        );
        let ghost old_events = out_events@;
        let ghost old_rels = out_rels@;
        if is_abs || is_rel {
            match rewrite_target(ev, is_rel, exclude_noises, project_root) {
                Ok((ev2, rel)) => {
                    let ghost gev2 = ev2@;
                    out_events.push(ev2);
                    let ghost grel: Seq<RelocationV> = match rel {
                        Option::Some(ref r) => seq![r@],
                        Option::None => Seq::empty(),
                    };
                    match rel {
                        Option::Some(rl) => {
                            out_rels.push(rl);
                        },
                        Option::None => {},
                    }
                    proof {
                        assert(events_view(out_events@) =~= events_view(old_events) + seq![gev2]);
                        assert(relocs_view(out_rels@) =~= relocs_view(old_rels) + grel);
                        match spec_rewrite_events(
                            evs.skip(i + 1),
                            spec_inside_after(rest[0], inside),
                            exclude_noises,
                            project_root@,
                        ) {
                            Option::None => {},
                            Option::Some((e, r)) => {
                                assert(events_view(old_events) + (seq![gev2] + e) =~= events_view(
                                    out_events@,
                                ) + e);
                                assert(relocs_view(old_rels) + (grel + r) =~= relocs_view(out_rels@)
                                    + r);
                            },
                        }
                        assert(spec_inside_after(rest[0], inside) == inside);
                    }
                },
                Err(e) => {
                    proof {
                        assert(spec_rewrite_events(
                            evs.skip(i as int),
                            inside,
                            exclude_noises,
                            project_root@,
                        ) is None);
                    }
                    return Err(e);
                },
            }
        } else {
            let ev2 = copy_event(ev);
            out_events.push(ev2);
            let is_start = ev.kind == EventKind::StartTag;
            let is_end = ev.kind == EventKind::EndTag;
            let opens = is_start && crate::bytes::bytes_eq(ev.name.as_slice(), sref.as_slice());
            let closes = is_end && crate::bytes::bytes_eq(ev.name.as_slice(), sref.as_slice());
            let ghost new_inside = spec_inside_after(rest[0], inside);
            proof {
                assert(spec_rewrite_one(rest[0], inside, exclude_noises, project_root@)
                    == Option::Some((rest[0], Option::None::<RelocationV>)));
                assert(events_view(out_events@) =~= events_view(old_events) + seq![rest[0]]);
                assert(relocs_view(out_rels@) + Seq::<RelocationV>::empty() =~= relocs_view(
                    out_rels@,
                ));
                match spec_rewrite_events(
                    evs.skip(i + 1),
                    new_inside,
                    exclude_noises,
                    project_root@,
                ) {
                    Option::None => {},
                    Option::Some((e, r)) => {
                        assert(events_view(old_events) + (seq![rest[0]] + e) =~= events_view(
                            out_events@,
                        ) + e);
                        assert(relocs_view(out_rels@) + (Seq::<RelocationV>::empty() + r)
                            =~= relocs_view(out_rels@) + r);
                    },
                }
            }
            if opens {
                inside = true;
            } else if closes {
                inside = false;
            }
            proof {
                assert(inside == new_inside);
            }
        }
        i = i + 1;
    }
    proof {
        assert(evs.skip(i as int) =~= Seq::<EventV>::empty());
        match goal {
            Option::None => {},
            Option::Some((e, r)) => {
                assert(events_view(out_events@) + Seq::<EventV>::empty() =~= events_view(
                    out_events@,
                ));
                assert(relocs_view(out_rels@) + Seq::<RelocationV>::empty() =~= relocs_view(
                    out_rels@,
                ));
            },
        }
    }
    Ok((out_events, out_rels))
}

/// The whole single-pass rewrite of a decompressed document: its events,
/// each rewritten under the sample-reference block flag, joined back into
/// one document, with the relocation requests in document order. Nothing
/// when the document or a targeted element is malformed.
pub open spec fn spec_update_sample_refs(xml: Seq<u8>, exclude_noises: bool, root: Seq<u8>) -> Option<
    (Seq<u8>, Seq<RelocationV>),
> {
    match spec_events(xml, 0) {
        Option::None => Option::None,
        Option::Some(evs) => match spec_rewrite_events(evs, false, exclude_noises, root) {
            Option::None => Option::None,
            Option::Some((out, rels)) => Option::Some((concat_raws(out), rels)),
        },
    }
}

/// Rewrites every sample reference of a decompressed document to point at
/// the canonical imported-samples location under the project root, in one
/// streaming pass that leaves everything else byte-identical, and returns
/// the new document together with the relocations it asks for. Fails
/// exactly on a malformed document, leaving nothing half-written.
pub fn update_sample_refs(xml: &Vec<u8>, settings: &CopifySettings, project_root: &[u8]) -> (r:
    Result<(Vec<u8>, Vec<Relocation>), Error>)
    ensures
        (r is Ok) == (spec_update_sample_refs(xml@, settings.serum_noises, project_root@)
            is Some),
        r is Ok ==> Option::Some(((r->Ok_0.0)@, relocs_view((r->Ok_0.1)@)))
            == spec_update_sample_refs(xml@, settings.serum_noises, project_root@),
        r is Err ==> r->Err_0 is Xml,
{
    let events = match tokenize(xml.as_slice()) {
        Ok(events) => events,
        Err(e) => {
            return Err(e);
        },
    };
    match rewrite_events(events, settings.serum_noises, project_root) {
        Ok((out_events, rels)) => {
            let out = serialize_events(&out_events);
            Ok((out, rels))
        },
        Err(e) => Err(e),
    }
}

/// Runs the transcode-and-rewrite pipeline on one container's bytes:
/// decompress, rewrite the sample references, recompress. On success the
/// result holds a complete valid container whose payload is the rewritten
/// document, and the relocations the rewrite asks for; on a corrupt
/// container or malformed document it fails without producing anything.
pub fn process_container(container: &Vec<u8>, settings: &CopifySettings, project_root: &[u8]) -> (r:
    Result<(Vec<u8>, Vec<Relocation>), Error>)
    ensures
        gunzip_of(container@) is None ==> r is Err && r->Err_0 is TranscodeFailed,
        gunzip_of(container@) is Some ==> ({
            let xml = gunzip_of(container@)->0;
            match spec_update_sample_refs(xml, settings.serum_noises, project_root@) {
                Option::None => r is Err && r->Err_0 is Xml,
                Option::Some((outxml, rels)) => r is Ok && (r->Ok_0.0)@ == gzip_of(outxml)
                    && gunzip_of((r->Ok_0.0)@) == Option::Some(outxml) && relocs_view(
                    (r->Ok_0.1)@,
                ) == rels,
            }
        }),
{
    let xml = match decompress(container) {
        Ok(xml) => xml,
        Err(e) => {
            return Err(e);
        },
    };
    match update_sample_refs(&xml, settings, project_root) {
        Ok((out, rels)) => Ok((compress(&out), rels)),
        Err(e) => Err(e),
    }
}

} // verus!
