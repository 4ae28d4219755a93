use vstd::prelude::*;
use vstd::slice::{slice_subrange, slice_to_vec};
use crate::bytes::{
    bytes_eq, find_byte, find_byte_exec, find_pat, find_pat_exec, lemma_find_byte_props,
    lemma_find_pat_props, lemma_name_end_props, lemma_tag_end_props, name_end, name_end_exec,
    tag_end, tag_end_exec, BANG, DASH, GT, LT, QMARK, RBRACK, SLASH,
};
use crate::error::Error;

verus! {

/// The kinds of XML event the tokenizer distinguishes. `Markup` covers the
/// declaration, processing instructions, comments, character data sections
/// and document-type declarations, all of which pass through verbatim.
#[derive(PartialEq, Eq, Structural, Clone, Copy, Debug)]
pub enum EventKind {
    Text,
    Markup,
    StartTag,
    EndTag,
    EmptyTag,
}

/// One XML event together with the exact bytes it stands for in the
/// document. `name` is the tag name of a start, end or self-closing tag,
/// and empty for text and markup events.
pub struct XmlEvent {
    pub kind: EventKind,
    pub raw: Vec<u8>,
    pub name: Vec<u8>,
}

/// The mathematical content of an `XmlEvent`.
#[verifier::ext_equal]
pub struct EventV {
    pub kind: EventKind,
    pub raw: Seq<u8>,
    pub name: Seq<u8>,
}

impl View for XmlEvent {
    type V = EventV;

    open spec fn view(&self) -> EventV {
        EventV { kind: self.kind, raw: self.raw@, name: self.name@ }
    }
}

/// The views of a vector of events.
pub open spec fn events_view(evs: Seq<XmlEvent>) -> Seq<EventV> {
    evs.map_values(|e: XmlEvent| e@)
}

/// The bytes all the events stand for, in order.
pub open spec fn concat_raws(evs: Seq<EventV>) -> Seq<u8>
    decreases evs.len(),
{
    if evs.len() == 0 {
        Seq::empty()
    } else {
        evs[0].raw + concat_raws(evs.skip(1))
    }
}

/// The bytes that open a comment.
pub open spec fn comment_open() -> Seq<u8> {
    seq![LT, BANG, DASH, DASH]
}

/// The bytes that close a comment.
pub open spec fn comment_close() -> Seq<u8> {
    seq![DASH, DASH, GT]
}

/// The bytes that open a character data section.
pub open spec fn cdata_open() -> Seq<u8> {
    seq![LT, BANG, 91u8, 67, 68, 65, 84, 65, 91]
}

/// The bytes that close a character data section.
pub open spec fn cdata_close() -> Seq<u8> {
    seq![RBRACK, RBRACK, GT]
}

/// The bytes that close a declaration or processing instruction.
pub open spec fn pi_close() -> Seq<u8> {
    seq![QMARK, GT]
}

/// The event that starts at position `i` of the document, with the position
/// just after it: a text run up to the next opening bracket; a declaration,
/// comment, character data section or document-type declaration up to its
/// closing bytes; or a start, end or self-closing tag up to its closing
/// bracket, with quoted attribute values skipped. Nothing when the
/// construct is left unterminated.
pub open spec fn spec_next_event(s: Seq<u8>, i: int) -> Option<(EventV, int)> {
    if i < 0 || i >= s.len() {
        Option::None
    } else if s[i] != LT {
        let j = match find_byte(s, i + 1, LT) {
            Option::Some(j) => j,
            Option::None => s.len() as int,
        };
        Option::Some(
            (EventV { kind: EventKind::Text, raw: s.subrange(i, j), name: Seq::empty() }, j),
        )
    } else if i + 1 < s.len() && s[i + 1] == QMARK {
        match find_pat(s, i + 2, pi_close()) {
            Option::Some(j) => Option::Some(
                (
                    EventV { kind: EventKind::Markup, raw: s.subrange(i, j + 2), name: Seq::empty() },
                    j + 2,
                ),
            ),
            Option::None => Option::None,
        }
    } else if i + 1 < s.len() && s[i + 1] == BANG {
        if i + 4 <= s.len() && s.subrange(i, i + 4) == comment_open() {
            match find_pat(s, i + 4, comment_close()) {
                Option::Some(j) => Option::Some(
                    (
                        EventV {
                            kind: EventKind::Markup,
                            raw: s.subrange(i, j + 3),
                            name: Seq::empty(),
                        },
                        j + 3,
                    ),
                ),
                Option::None => Option::None,
            }
        } else if i + 9 <= s.len() && s.subrange(i, i + 9) == cdata_open() {
            match find_pat(s, i + 9, cdata_close()) {
                Option::Some(j) => Option::Some(
                    (
                        EventV {
                            kind: EventKind::Markup,
                            raw: s.subrange(i, j + 3),
                            name: Seq::empty(),
                        },
                        j + 3,
                    ),
                ),
                Option::None => Option::None,
            }
        } else {
            match find_byte(s, i + 2, GT) {
                Option::Some(j) => Option::Some(
                    (
                        EventV {
                            kind: EventKind::Markup,
                            raw: s.subrange(i, j + 1),
                            name: Seq::empty(),
                        },
                        j + 1,
                    ),
                ),
                Option::None => Option::None,
            }
        }
    } else if i + 1 < s.len() && s[i + 1] == SLASH {
        match find_byte(s, i + 2, GT) {
            Option::Some(j) => {
                let ne = name_end(s, i + 2);
                let name = s.subrange(i + 2, if ne <= j { ne } else { j });
                Option::Some(
                    (EventV { kind: EventKind::EndTag, raw: s.subrange(i, j + 1), name }, j + 1),
                )
            },
            Option::None => Option::None,
        }
    } else {
        match tag_end(s, i + 1) {
            Option::Some(j) => {
                let ne = name_end(s, i + 1);
                let name = s.subrange(i + 1, if ne <= j { ne } else { j });
                let kind = if s[j - 1] == SLASH && i + 1 < j {
                    EventKind::EmptyTag
                } else {
                    EventKind::StartTag
                };
                Option::Some((EventV { kind, raw: s.subrange(i, j + 1), name }, j + 1))
            },
            Option::None => Option::None,
        }
    }
}

/// What a next-event result means: the event stands exactly on the bytes
/// between its position and the position after it.
pub proof fn lemma_next_event_props(s: Seq<u8>, i: int)
    requires
        0 <= i < s.len(),
    ensures
        match spec_next_event(s, i) {
            Option::Some((ev, j)) => i < j <= s.len() && ev.raw == s.subrange(i, j),
            Option::None => true,
        },
{
    if s[i] != LT {
        lemma_find_byte_props(s, i + 1, LT);
    } else if i + 1 < s.len() && s[i + 1] == QMARK {
        lemma_find_pat_props(s, i + 2, pi_close());
    } else if i + 1 < s.len() && s[i + 1] == BANG {
        if i + 4 <= s.len() && s.subrange(i, i + 4) == comment_open() {
            lemma_find_pat_props(s, i + 4, comment_close());
        } else if i + 9 <= s.len() && s.subrange(i, i + 9) == cdata_open() {
            lemma_find_pat_props(s, i + 9, cdata_close());
        } else {
            lemma_find_byte_props(s, i + 2, GT);
        }
    } else if i + 1 < s.len() && s[i + 1] == SLASH {
        lemma_find_byte_props(s, i + 2, GT);
    } else {
        lemma_tag_end_props(s, i + 1);
    }
}

/// The events of the document from position `i` on. Nothing when some
/// construct is malformed.
pub open spec fn spec_events(s: Seq<u8>, i: int) -> Option<Seq<EventV>>
    decreases s.len() - i,
{
    if i >= s.len() {
        Option::Some(Seq::empty())
    } else {
        match spec_next_event(s, i) {
            Option::None => Option::None,
            Option::Some((ev, j)) => if i < j <= s.len() {
                match spec_events(s, j) {
                    Option::None => Option::None,
                    Option::Some(rest) => Option::Some(seq![ev] + rest),
                }
            } else {
                Option::None
            },
        }
    }
}

/// A tokenized document's events stand, in order, exactly on the bytes of
/// the document from the given position on.
pub proof fn lemma_events_concat(s: Seq<u8>, i: int)
    requires
        0 <= i <= s.len(),
        spec_events(s, i) is Some,
    ensures
        concat_raws(spec_events(s, i)->0) == s.subrange(i, s.len() as int),
    decreases s.len() - i,
{
    if i >= s.len() {
        assert(concat_raws(Seq::<EventV>::empty()) =~= s.subrange(i, s.len() as int));
    } else {
        let (ev, j) = spec_next_event(s, i)->0;
        lemma_next_event_props(s, i);
        lemma_events_concat(s, j);
        let evs = spec_events(s, i)->0;
        assert(evs =~= seq![ev] + spec_events(s, j)->0);
        assert(evs[0] == ev);
        assert(evs.skip(1) =~= spec_events(s, j)->0);
        assert(concat_raws(evs) == ev.raw + concat_raws(spec_events(s, j)->0));
        assert(s.subrange(i, j) + s.subrange(j, s.len() as int) =~= s.subrange(
            i,
            s.len() as int,
        ));
    }
}

/// Reads the event that starts at position `i`, or reports the malformed
/// construct.
fn next_event(s: &[u8], i: usize) -> (r: Result<(XmlEvent, usize), Error>)
    requires
        i < s@.len(),
    ensures
        match spec_next_event(s@, i as int) {
            Option::Some((ev, j)) => r is Ok && r->Ok_0.0@ == ev && r->Ok_0.1 == j,
            Option::None => r is Err && r->Err_0 is Xml,
        },
{
    let n = s.len();
    let c = s[i];
    if c != LT {
        proof {
            lemma_find_byte_props(s@, i + 1, LT);
        }
        let j = match find_byte_exec(s, i + 1, LT) {
            Option::Some(j) => j,
            Option::None => n,
        };
        let ev = XmlEvent {
            kind: EventKind::Text,
            raw: slice_to_vec(slice_subrange(s, i, j)),
            name: Vec::new(),
        };
        proof {
            assert(ev@ =~= (spec_next_event(s@, i as int)->0).0);
        }
        return Ok((ev, j));
    }
    if i + 1 < n && s[i + 1] == QMARK {
        let mut pat: Vec<u8> = Vec::new();
        pat.push(QMARK);
        pat.push(GT);
        proof {
            assert(pat@ =~= pi_close());
            lemma_find_pat_props(s@, i + 2, pi_close());
        }
        match find_pat_exec(s, i + 2, pat.as_slice()) {
            Option::Some(j) => {
                let ev = XmlEvent {
                    kind: EventKind::Markup,
                    raw: slice_to_vec(slice_subrange(s, i, j + 2)),
                    name: Vec::new(),
                };
                proof {
                    assert(ev@ =~= (spec_next_event(s@, i as int)->0).0);
                }
                return Ok((ev, j + 2));
            },
            Option::None => {
                return Err(Error::Xml("Unterminated declaration".to_owned()));
            },
        }
    }
    if i + 1 < n && s[i + 1] == BANG {
        let is_comment = n - i >= 4 && {
            let mut open: Vec<u8> = Vec::new();
            open.push(LT);
            open.push(BANG);
            open.push(DASH);
            open.push(DASH);
            proof {
                assert(open@ =~= comment_open());
            }
            bytes_eq(slice_subrange(s, i, i + 4), open.as_slice())
        };
        if is_comment {
            let mut close: Vec<u8> = Vec::new();
            close.push(DASH);
            close.push(DASH);
            close.push(GT);
            proof {
                assert(close@ =~= comment_close());
                lemma_find_pat_props(s@, i + 4, comment_close());
            }
            match find_pat_exec(s, i + 4, close.as_slice()) {
                Option::Some(j) => {
                    let ev = XmlEvent {
                        kind: EventKind::Markup,
                        raw: slice_to_vec(slice_subrange(s, i, j + 3)),
                        name: Vec::new(),
                    };
                    proof {
                        assert(ev@ =~= (spec_next_event(s@, i as int)->0).0);
                    }
                    return Ok((ev, j + 3));
                },
                Option::None => {
                    return Err(Error::Xml("Unterminated comment".to_owned()));
                },
            }
        }
        let is_cdata = !is_comment && n - i >= 9 && {
            let mut open: Vec<u8> = Vec::new();
            open.push(LT);
            open.push(BANG);
            open.push(91);
            open.push(67);
            open.push(68);
            open.push(65);
            open.push(84);
            open.push(65);
            open.push(91);
            proof {
                assert(open@ =~= cdata_open());
            }
            bytes_eq(slice_subrange(s, i, i + 9), open.as_slice())
        };
        if is_cdata {
            let mut close: Vec<u8> = Vec::new();
            close.push(RBRACK);
            close.push(RBRACK);
            close.push(GT);
            proof {
                assert(close@ =~= cdata_close());
                lemma_find_pat_props(s@, i + 9, cdata_close());
            }
            match find_pat_exec(s, i + 9, close.as_slice()) {
                Option::Some(j) => {
                    let ev = XmlEvent {
                        kind: EventKind::Markup,
                        raw: slice_to_vec(slice_subrange(s, i, j + 3)),
                        name: Vec::new(),
                    };
                    proof {
                        assert(ev@ =~= (spec_next_event(s@, i as int)->0).0);
                    }
                    return Ok((ev, j + 3));
                },
                Option::None => {
                    return Err(Error::Xml("Unterminated character data section".to_owned()));
                },
            }
        }
        proof {
            lemma_find_byte_props(s@, i + 2, GT);
        }
        match find_byte_exec(s, i + 2, GT) {
            Option::Some(j) => {
                let ev = XmlEvent {
                    kind: EventKind::Markup,
                    raw: slice_to_vec(slice_subrange(s, i, j + 1)),
                    name: Vec::new(),
                };
                proof {
                    assert(ev@ =~= (spec_next_event(s@, i as int)->0).0);
                }
                return Ok((ev, j + 1));
            },
            Option::None => {
                return Err(Error::Xml("Unterminated document-type declaration".to_owned()));
            },
        }
    }
    if i + 1 < n && s[i + 1] == SLASH {
        proof {
            lemma_find_byte_props(s@, i + 2, GT);
        }
        match find_byte_exec(s, i + 2, GT) {
            Option::Some(j) => {
                proof {
                    lemma_name_end_props(s@, i + 2);
                }
                let ne = name_end_exec(s, i + 2);
                let name_to = if ne <= j {
                    ne
                } else {
                    j
                };
                let ev = XmlEvent {
                    kind: EventKind::EndTag,
                    raw: slice_to_vec(slice_subrange(s, i, j + 1)),
                    name: slice_to_vec(slice_subrange(s, i + 2, name_to)),
                };
                proof {
                    assert(ev@ =~= (spec_next_event(s@, i as int)->0).0);
                }
                return Ok((ev, j + 1));
            },
            Option::None => {
                return Err(Error::Xml("Unterminated end tag".to_owned()));
            },
        }
    }
    proof {
        lemma_tag_end_props(s@, i + 1);
    }
    match tag_end_exec(s, i + 1) {
        Option::Some(j) => {
            proof {
                lemma_name_end_props(s@, i + 1);
            }
            let ne = name_end_exec(s, i + 1);
            let name_to = if ne <= j {
                ne
            } else {
                j
            };
            let kind = if s[j - 1] == SLASH && i + 1 < j {
                EventKind::EmptyTag
            } else {
                EventKind::StartTag
            };
            let ev = XmlEvent {
                kind,
                raw: slice_to_vec(slice_subrange(s, i, j + 1)),
                name: slice_to_vec(slice_subrange(s, i + 1, name_to)),
            };
            proof {
                assert(ev@ =~= (spec_next_event(s@, i as int)->0).0);
            }
            Ok((ev, j + 1))
        },
        Option::None => Err(Error::Xml("Unterminated tag".to_owned())),
    }
}

/// Splits a document into its events. The events stand, in order, exactly
/// on the bytes of the document; a document with an unterminated construct
/// is malformed.
pub fn tokenize(xml: &[u8]) -> (r: Result<Vec<XmlEvent>, Error>)
    ensures
        (r is Ok) == (spec_events(xml@, 0) is Some),
        r is Ok ==> Option::Some(events_view(r->Ok_0@)) == spec_events(xml@, 0),
        r is Err ==> r->Err_0 is Xml,
{
    let n = xml.len();
    let mut out: Vec<XmlEvent> = Vec::new();
    let mut i: usize = 0;
    proof {
        assert(events_view(out@) =~= Seq::<EventV>::empty());
    }
    while i < n
        invariant
            i <= n,
            n == xml@.len(),
            match spec_events(xml@, i as int) {
                Option::Some(rest) => spec_events(xml@, 0) == Option::Some(
                    events_view(out@) + rest,
                ),
                Option::None => spec_events(xml@, 0) is None,
            },
        decreases n - i,
    {
        proof {
            lemma_next_event_props(xml@, i as int);
        }
        match next_event(xml, i) {
            Ok((ev, j)) => {
                let ghost old_out = out@;
                out.push(ev);
                proof {
                    assert(events_view(out@) =~= events_view(old_out) + seq![ev@]);
                    match spec_events(xml@, j as int) {
                        Option::Some(rest) => {
                            assert(spec_events(xml@, i as int) == Option::Some(
                                seq![ev@] + rest,
                            ));
                            assert(events_view(old_out) + (seq![ev@] + rest) =~= events_view(out@)
                                + rest);
                        },
                        Option::None => {
                            assert(spec_events(xml@, i as int) is None);
                        },
                    }
                }
                i = j;
            },
            Err(e) => {
                proof {
                    assert(spec_events(xml@, i as int) is None);
                }
                return Err(e);
            },
        }
    }
    proof {
        assert(spec_events(xml@, i as int) == Option::Some(Seq::<EventV>::empty()));
        assert(events_view(out@) + Seq::<EventV>::empty() =~= events_view(out@));
    }
    Ok(out)
}

/// Joins the bytes of a list of events back into one document.
pub fn serialize_events(events: &Vec<XmlEvent>) -> (r: Vec<u8>)
    ensures
        r@ == concat_raws(events_view(events@)),
{
    let ghost evs = events_view(events@);
    let mut out: Vec<u8> = Vec::new();
    let mut i: usize = 0;
    proof {
        assert(evs.skip(0) =~= evs);
        assert(out@ + concat_raws(evs) =~= concat_raws(evs));
    }
    while i < events.len()
        invariant
            i <= events@.len(),
            evs == events_view(events@),
            concat_raws(evs) == out@ + concat_raws(evs.skip(i as int)),
        decreases events@.len() - i,
    {
        let ghost rest = evs.skip(i as int);
        let ghost old_out = out@;
        out.extend_from_slice(events[i].raw.as_slice());
        proof {
            assert(rest[0] == evs[i as int]);
            assert(rest.skip(1) =~= evs.skip(i + 1));
            assert(old_out + (rest[0].raw + concat_raws(evs.skip(i + 1))) =~= out@ + concat_raws(
                evs.skip(i + 1),
            ));
        }
        i = i + 1;
    }
    proof {
        assert(evs.skip(i as int) =~= Seq::<EventV>::empty());
        assert(concat_raws(evs) =~= out@);
    }
    out
}

} // verus!
