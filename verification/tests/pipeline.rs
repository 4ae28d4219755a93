use copify::models::CopifySettings;
use copify::rewrite::{process_container, rewrite_events, update_sample_refs};
use copify::tokenize::{tokenize, EventKind};
use copify::transcode::{compress, decompress, transcode_round_trip};
use copify::xml::{modify_value_attribute, XmlAttr};
use copify::Error;

fn settings(serum_noises: bool) -> CopifySettings {
    CopifySettings {
        serum_noises,
        move_samples: false,
        create_backup: false,
        folder: String::new(),
        exclude_files: Vec::new(),
    }
}

fn attr(key: &str, value: &str) -> XmlAttr {
    XmlAttr { key: key.as_bytes().to_vec(), value: value.as_bytes().to_vec() }
}

#[test]
fn transcode_round_trip_restores_payload() {
    let payload: Vec<u8> = b"<?xml version=\"1.0\"?><Ableton><SampleRef/></Ableton>".to_vec();
    let container = compress(&payload);
    let back = decompress(&container).unwrap();
    assert_eq!(back, payload);
}

#[test]
fn transcode_round_trip_of_empty_payload() {
    let payload: Vec<u8> = Vec::new();
    assert_eq!(decompress(&compress(&payload)).unwrap(), payload);
}

#[test]
fn transcode_round_trip_of_binary_payload() {
    let payload: Vec<u8> = (0u16..2048).map(|i| (i % 251) as u8).collect();
    assert_eq!(transcode_round_trip(&payload), payload);
}

#[test]
fn corrupt_container_is_refused() {
    let garbage: Vec<u8> = b"this is not a compressed container".to_vec();
    assert!(matches!(decompress(&garbage), Err(Error::TranscodeFailed(_))));
}

#[test]
fn truncated_container_is_refused() {
    let mut container = compress(&b"<Ableton/>".to_vec());
    container.truncate(container.len() / 2);
    assert!(matches!(decompress(&container), Err(Error::TranscodeFailed(_))));
}

#[test]
fn tokenizer_splits_into_events() {
    let doc = b"<?xml version=\"1.0\"?>\n<a><!-- note --><b x=\"1\"/>text</a>";
    let events = tokenize(doc).unwrap();
    let kinds: Vec<EventKind> = events.iter().map(|e| e.kind).collect();
    assert_eq!(
        kinds,
        vec![
            EventKind::Markup,
            EventKind::Text,
            EventKind::StartTag,
            EventKind::Markup,
            EventKind::EmptyTag,
            EventKind::Text,
            EventKind::EndTag,
        ]
    );
    assert_eq!(events[2].name, b"a".to_vec());
    assert_eq!(events[4].name, b"b".to_vec());
    let joined: Vec<u8> = events.iter().flat_map(|e| e.raw.clone()).collect();
    assert_eq!(joined, doc.to_vec());
}

#[test]
fn tokenizer_refuses_unterminated_tag() {
    assert!(matches!(tokenize(b"<a attr=\"v\""), Err(Error::Xml(_))));
}

#[test]
fn tokenizer_keeps_brackets_inside_quoted_values() {
    let doc = b"<a v=\"1>2\"/>";
    let events = tokenize(doc).unwrap();
    assert_eq!(events.len(), 1);
    assert_eq!(events[0].kind, EventKind::EmptyTag);
    assert_eq!(events[0].raw, doc.to_vec());
}

#[test]
fn rewrite_scenario_relocates_both_references() {
    let doc = b"<SampleRef><FileRef><Path Value=\"C:/Audio/kick.wav\"/><RelativePath Value=\"../Audio/kick.wav\"/></FileRef></SampleRef>".to_vec();
    let (out, relocations) = update_sample_refs(&doc, &settings(false), b"/proj").unwrap();
    let expected = b"<SampleRef><FileRef><Path Value=\"/proj/Samples/Imported/kick.wav\"/><RelativePath Value=\"Samples/Imported/kick.wav\"/></FileRef></SampleRef>".to_vec();
    assert_eq!(String::from_utf8(out).unwrap(), String::from_utf8(expected).unwrap());
    assert_eq!(relocations.len(), 1);
    assert_eq!(relocations[0].source, b"C:/Audio/kick.wav".to_vec());
    assert_eq!(relocations[0].dest, b"/proj/Samples/Imported/kick.wav".to_vec());
}

#[test]
fn rewrite_decodes_entities_in_source_path() {
    let doc =
        b"<SampleRef><Path Value=\"C:/Drum &amp; Bass/kick.wav\"/></SampleRef>".to_vec();
    let (_, relocations) = update_sample_refs(&doc, &settings(false), b"/p").unwrap();
    assert_eq!(relocations.len(), 1);
    assert_eq!(relocations[0].source, b"C:/Drum & Bass/kick.wav".to_vec());
    assert_eq!(relocations[0].dest, b"/p/Samples/Imported/kick.wav".to_vec());
}

#[test]
fn rewrite_is_idempotent() {
    let doc = b"<SampleRef><FileRef><Path Value=\"C:/Audio/kick.wav\"/><RelativePath Value=\"../Audio/kick.wav\"/></FileRef></SampleRef>".to_vec();
    let (once, _) = update_sample_refs(&doc, &settings(false), b"/proj").unwrap();
    let (twice, relocations) = update_sample_refs(&once, &settings(false), b"/proj").unwrap();
    assert_eq!(once, twice);
    // The second pass still asks for the no-op relocation onto itself.
    assert_eq!(relocations.len(), 1);
    assert_eq!(relocations[0].source, relocations[0].dest);
}

#[test]
fn rewrite_passes_unrecognized_content_through() {
    let doc = b"<?xml version=\"1.0\" encoding=\"UTF-8\"?>\n<Ableton MinorVersion=\"10\">\n  <Tempo Value=\"120\"/>\n  <Path Value=\"C:/outside.wav\"/>\n  <!-- comment -->\n</Ableton>".to_vec();
    // No SampleRef block: even path-bearing elements stay untouched.
    let (out, relocations) = update_sample_refs(&doc, &settings(false), b"/proj").unwrap();
    assert_eq!(out, doc);
    assert!(relocations.is_empty());
}

#[test]
fn rewrite_only_touches_references_inside_the_block() {
    let doc = b"<a><Path Value=\"x/no.wav\"/><SampleRef><Path Value=\"x/yes.wav\"/></SampleRef><Path Value=\"x/no2.wav\"/></a>".to_vec();
    let (out, relocations) = update_sample_refs(&doc, &settings(false), b"/r").unwrap();
    let text = String::from_utf8(out).unwrap();
    assert!(text.contains("<Path Value=\"x/no.wav\"/>"));
    assert!(text.contains("<Path Value=\"x/no2.wav\"/>"));
    assert!(text.contains("<Path Value=\"/r/Samples/Imported/yes.wav\"/>"));
    assert_eq!(relocations.len(), 1);
}

#[test]
fn noise_preset_reference_is_skipped() {
    let doc = b"<SampleRef><Path Value=\"C:/x/Serum Presets/Noises/air.wav\"/><RelativePath Value=\"../Serum Presets/Noises/air.wav\"/></SampleRef>".to_vec();
    let (out, relocations) = update_sample_refs(&doc, &settings(true), b"/proj").unwrap();
    assert_eq!(out, doc);
    assert!(relocations.is_empty());
}

#[test]
fn noise_preset_reference_is_relocated_when_filter_is_off() {
    let doc = b"<SampleRef><Path Value=\"C:/x/Serum Presets/Noises/air.wav\"/></SampleRef>".to_vec();
    let (_, relocations) = update_sample_refs(&doc, &settings(false), b"/proj").unwrap();
    assert_eq!(relocations.len(), 1);
}

#[test]
fn attribute_surgery_preserves_order_and_count() {
    let attrs = vec![attr("Id", "7"), attr("Value", "old"), attr("Zone", "A")];
    let out = modify_value_attribute(attrs, b"Value", b"new");
    assert_eq!(out.len(), 3);
    assert_eq!(out[0].key, b"Id".to_vec());
    assert_eq!(out[0].value, b"7".to_vec());
    assert_eq!(out[1].key, b"Value".to_vec());
    assert_eq!(out[1].value, b"new".to_vec());
    assert_eq!(out[2].key, b"Zone".to_vec());
    assert_eq!(out[2].value, b"A".to_vec());
}

#[test]
fn attribute_surgery_appends_when_absent() {
    let attrs = vec![attr("Id", "7")];
    let out = modify_value_attribute(attrs, b"Value", b"new");
    assert_eq!(out.len(), 2);
    assert_eq!(out[0].key, b"Id".to_vec());
    assert_eq!(out[1].key, b"Value".to_vec());
    assert_eq!(out[1].value, b"new".to_vec());
}

#[test]
fn attribute_surgery_never_duplicates() {
    let attrs = vec![attr("Value", "a"), attr("Value", "b")];
    let out = modify_value_attribute(attrs, b"Value", b"c");
    assert_eq!(out.len(), 2);
    assert_eq!(out[0].value, b"c".to_vec());
    assert_eq!(out[1].value, b"c".to_vec());
}

#[test]
fn rewrite_keeps_other_attributes_of_path_element() {
    let doc = b"<SampleRef><Path Id=\"3\" Value=\"a/k.wav\" Extra=\"e\"/></SampleRef>".to_vec();
    let (out, _) = update_sample_refs(&doc, &settings(false), b"/r").unwrap();
    assert_eq!(
        String::from_utf8(out).unwrap(),
        "<SampleRef><Path Id=\"3\" Value=\"/r/Samples/Imported/k.wav\" Extra=\"e\"/></SampleRef>"
    );
}

#[test]
fn rewrite_tolerates_bare_basename_in_relative_path() {
    let doc = b"<SampleRef><RelativePath Value=\"kick.wav\"/></SampleRef>".to_vec();
    let (out, _) = update_sample_refs(&doc, &settings(false), b"/r").unwrap();
    assert_eq!(
        String::from_utf8(out).unwrap(),
        "<SampleRef><RelativePath Value=\"Samples/Imported/kick.wav\"/></SampleRef>"
    );
}

#[test]
fn malformed_document_aborts_the_pass() {
    let doc = b"<SampleRef><Path Value=\"unterminated".to_vec();
    assert!(matches!(
        update_sample_refs(&doc, &settings(false), b"/r"),
        Err(Error::Xml(_))
    ));
}

#[test]
fn rewrite_events_reports_relocations_in_document_order() {
    let doc = b"<SampleRef><Path Value=\"a/1.wav\"/><Path Value=\"b/2.wav\"/></SampleRef>".to_vec();
    let events = tokenize(&doc).unwrap();
    let (_, relocations) = rewrite_events(events, false, b"/r").unwrap();
    assert_eq!(relocations.len(), 2);
    assert_eq!(relocations[0].source, b"a/1.wav".to_vec());
    assert_eq!(relocations[1].source, b"b/2.wav".to_vec());
}

#[test]
fn process_container_rewrites_the_compressed_payload() {
    let xml = b"<SampleRef><Path Value=\"C:/Audio/kick.wav\"/></SampleRef>".to_vec();
    let container = compress(&xml);
    let (out_container, relocations) =
        process_container(&container, &settings(false), b"/proj").unwrap();
    let out_xml = decompress(&out_container).unwrap();
    assert_eq!(
        String::from_utf8(out_xml).unwrap(),
        "<SampleRef><Path Value=\"/proj/Samples/Imported/kick.wav\"/></SampleRef>"
    );
    assert_eq!(relocations.len(), 1);
}

#[test]
fn process_container_refuses_garbage() {
    let garbage = b"not gzip at all".to_vec();
    assert!(matches!(
        process_container(&garbage, &settings(false), b"/proj"),
        Err(Error::TranscodeFailed(_))
    ));
}

#[test]
fn character_data_sections_pass_through_unparsed() {
    let doc = b"<SampleRef><![CDATA[<Path Value=\"x/y.wav\"/>]]><Path Value=\"a/k.wav\"/></SampleRef>".to_vec();
    let (out, relocations) = update_sample_refs(&doc, &settings(false), b"/r").unwrap();
    let text = String::from_utf8(out).unwrap();
    assert!(text.contains("<![CDATA[<Path Value=\"x/y.wav\"/>]]>"));
    assert!(text.contains("<Path Value=\"/r/Samples/Imported/k.wav\"/>"));
    assert_eq!(relocations.len(), 1);
}

#[test]
fn single_quoted_attributes_are_understood() {
    let doc = b"<SampleRef><Path Value='a/k.wav'/></SampleRef>".to_vec();
    let (out, relocations) = update_sample_refs(&doc, &settings(false), b"/r").unwrap();
    assert_eq!(
        String::from_utf8(out).unwrap(),
        "<SampleRef><Path Value=\"/r/Samples/Imported/k.wav\"/></SampleRef>"
    );
    assert_eq!(relocations.len(), 1);
}

#[test]
fn path_element_without_value_attribute_is_untouched() {
    let doc = b"<SampleRef><Path Id=\"9\"/></SampleRef>".to_vec();
    let (out, relocations) = update_sample_refs(&doc, &settings(false), b"/r").unwrap();
    assert_eq!(out, doc);
    assert!(relocations.is_empty());
}

#[test]
fn path_value_without_basename_is_untouched() {
    let doc = b"<SampleRef><Path Value=\"C:/Audio/\"/></SampleRef>".to_vec();
    let (out, relocations) = update_sample_refs(&doc, &settings(false), b"/r").unwrap();
    assert_eq!(out, doc);
    assert!(relocations.is_empty());
}

#[test]
fn path_value_ending_in_dot_segment_is_untouched() {
    // Rewriting these would point the reference outside the canonical
    // imported-samples folder and ask to relocate a directory.
    let doc = b"<SampleRef><Path Value=\"C:/Audio/..\"/><Path Value=\"C:/Audio/.\"/></SampleRef>"
        .to_vec();
    let (out, relocations) = update_sample_refs(&doc, &settings(false), b"/r").unwrap();
    assert_eq!(out, doc);
    assert!(relocations.is_empty());
}

#[test]
fn declaration_is_preserved_verbatim() {
    let doc = b"<?xml version=\"1.0\" encoding=\"UTF-8\"?>\n<Ableton><SampleRef><Path Value=\"a/k.wav\"/></SampleRef></Ableton>".to_vec();
    let (out, _) = update_sample_refs(&doc, &settings(false), b"/r").unwrap();
    let text = String::from_utf8(out).unwrap();
    assert!(text.starts_with("<?xml version=\"1.0\" encoding=\"UTF-8\"?>\n"));
}
