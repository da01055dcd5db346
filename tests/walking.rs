use device_tree::render::{render_diagnostic, render_event};
use device_tree::tree::{device_tree_from_ram_ptr, FdtError, DEVICE_TREE_MAGIC};
use device_tree::walker::{
    Event, Span, FDT_BEGIN_NODE, FDT_END, FDT_END_NODE, FDT_NOP, FDT_PROP,
};

fn word(out: &mut Vec<u8>, v: u32) {
    out.extend_from_slice(&v.to_be_bytes());
}

/// A blob with the given structure block right after the header and the strings block after it.
fn blob_with(structure: &[u8], strings: &[u8]) -> Vec<u8> {
    let mut blob = Vec::new();
    let struct_off = 40u32;
    let strings_off = struct_off + structure.len() as u32;
    word(&mut blob, DEVICE_TREE_MAGIC);
    word(&mut blob, strings_off + strings.len() as u32);
    word(&mut blob, struct_off);
    word(&mut blob, strings_off);
    word(&mut blob, 40);
    word(&mut blob, 17);
    word(&mut blob, 16);
    word(&mut blob, 0);
    word(&mut blob, strings.len() as u32);
    word(&mut blob, structure.len() as u32);
    blob.extend_from_slice(structure);
    blob.extend_from_slice(strings);
    blob
}

fn begin(out: &mut Vec<u8>, name: &[u8]) {
    word(out, FDT_BEGIN_NODE);
    out.extend_from_slice(name);
    out.push(0);
    while out.len() % 4 != 0 {
        out.push(0);
    }
}

fn prop(out: &mut Vec<u8>, name_offset: u32, data: &[u8]) {
    word(out, FDT_PROP);
    word(out, data.len() as u32);
    word(out, name_offset);
    out.extend_from_slice(data);
    while out.len() % 4 != 0 {
        out.push(0);
    }
}

fn text(bytes: Vec<u8>) -> String {
    String::from_utf8(bytes).unwrap()
}

fn one_property_blob() -> Vec<u8> {
    let mut s = Vec::new();
    begin(&mut s, b"");
    prop(&mut s, 0, &[1, 2, 3, 4, 5, 6, 7, 8]);
    word(&mut s, FDT_END_NODE);
    word(&mut s, FDT_END);
    blob_with(&s, b"compatible\0")
}

#[test]
fn end_to_end_single_property() {
    let blob = one_property_blob();
    let (dt, err) = device_tree_from_ram_ptr(&blob);
    assert_eq!(err, None);
    let evs = dt.events();
    assert_eq!(evs.len(), 4);
    assert_eq!(evs[0], Event::NodeStart { name: Span { start: 44, len: 0 } });
    match evs[1] {
        Event::Property { name, data } => {
            assert_eq!(&blob[name.start..name.start + name.len], b"compatible");
            assert_eq!(&blob[data.start..data.start + data.len], &[1, 2, 3, 4, 5, 6, 7, 8]);
            let mut line = Vec::new();
            render_event(&mut line, &blob, evs[1], 0);
            assert_eq!(text(line), "compatible: 01 02 03 04 05 06 07 08\n");
        }
        other => panic!("expected a property, got {:?}", other),
    }
    assert_eq!(evs[2], Event::NodeEnd);
    assert_eq!(evs[3], Event::End);
    assert!(!evs.iter().any(|e| matches!(e, Event::Diagnostic(_))));
    assert_eq!(text(dt.print_structure()), "\n  compatible: 01 02 03 04 05 06 07 08\n");
}

#[test]
fn missing_end_tag_is_reported_once() {
    let mut s = Vec::new();
    begin(&mut s, b"");
    begin(&mut s, b"cpus");
    word(&mut s, FDT_END_NODE);
    word(&mut s, FDT_END_NODE);
    let blob = blob_with(&s, b"");
    let (dt, _) = device_tree_from_ram_ptr(&blob);
    let evs = dt.events();
    let diagnostics: Vec<&Event> =
        evs.iter().filter(|e| matches!(e, Event::Diagnostic(_))).collect();
    assert_eq!(diagnostics, vec![&Event::Diagnostic(FdtError::MissingEndTag)]);
    assert_eq!(evs.last(), Some(&Event::Diagnostic(FdtError::MissingEndTag)));
    assert_eq!(text(dt.print_structure()), "\n  cpus\nNo end tag found\n");
}

#[test]
fn depth_returns_to_zero_at_matching_end() {
    let mut s = Vec::new();
    begin(&mut s, b"");
    begin(&mut s, b"cpus");
    begin(&mut s, b"cpu@0");
    word(&mut s, FDT_END_NODE);
    word(&mut s, FDT_END_NODE);
    word(&mut s, FDT_END_NODE);
    word(&mut s, FDT_END);
    let blob = blob_with(&s, b"");
    let (dt, _) = device_tree_from_ram_ptr(&blob);
    let mut w = dt.walker();
    let mut depths = Vec::new();
    while let Some(e) = w.next_event() {
        depths.push((e, w.depth()));
    }
    let seen: Vec<usize> = depths.iter().map(|p| p.1).collect();
    assert_eq!(seen, vec![1, 2, 3, 2, 1, 0, 0]);
    assert_eq!(depths[5].0, Event::NodeEnd);
    assert_eq!(depths[6].0, Event::End);
    assert_eq!(w.next_event(), None);
    assert_eq!(text(dt.print_structure()), "\n  cpus\n    cpu@0\n");
}

#[test]
fn end_node_at_depth_zero_is_invalid_nesting() {
    let mut s = Vec::new();
    begin(&mut s, b"");
    word(&mut s, FDT_END_NODE);
    word(&mut s, FDT_END_NODE);
    word(&mut s, FDT_END);
    let blob = blob_with(&s, b"");
    let (dt, _) = device_tree_from_ram_ptr(&blob);
    let evs = dt.events();
    assert_eq!(evs.len(), 3);
    assert_eq!(evs[2], Event::Diagnostic(FdtError::InvalidNesting));
    assert_eq!(text(dt.print_structure()), "\nInvalid end node\n");
}

#[test]
fn nop_is_skipped_and_empty_property_rendered() {
    let mut s = Vec::new();
    word(&mut s, FDT_NOP);
    begin(&mut s, b"root");
    word(&mut s, FDT_NOP);
    prop(&mut s, 0, &[]);
    prop(&mut s, 7, &[0xab, 0x0c, 0xff]);
    word(&mut s, FDT_END_NODE);
    word(&mut s, FDT_END);
    let blob = blob_with(&s, b"ranges\0reg\0");
    let (dt, _) = device_tree_from_ram_ptr(&blob);
    let evs = dt.events();
    assert_eq!(evs.len(), 5);
    assert_eq!(
        text(dt.print_structure()),
        "root\n  ranges: <empty>\n  reg: ab 0c ff\n"
    );
}

#[test]
fn unknown_tag_stops_the_walk() {
    let mut s = Vec::new();
    begin(&mut s, b"");
    word(&mut s, 0x2a);
    word(&mut s, FDT_END_NODE);
    word(&mut s, FDT_END);
    let blob = blob_with(&s, b"");
    let (dt, _) = device_tree_from_ram_ptr(&blob);
    let evs = dt.events();
    assert_eq!(evs.len(), 2);
    assert_eq!(evs[1], Event::Diagnostic(FdtError::UnknownTag(0x2a)));
    assert_eq!(text(dt.print_structure()), "\nUnknown tag 0x2a\n");
}

#[test]
fn unterminated_node_name_is_invalid() {
    let mut s = Vec::new();
    word(&mut s, FDT_BEGIN_NODE);
    s.extend_from_slice(&[b'n'; 256]);
    s.extend_from_slice(&[0, 0, 0, 0]);
    word(&mut s, FDT_END);
    let blob = blob_with(&s, b"");
    let (dt, _) = device_tree_from_ram_ptr(&blob);
    assert_eq!(dt.events(), vec![Event::Diagnostic(FdtError::InvalidNodeName)]);
    assert_eq!(text(dt.print_structure()), "<invalid node name>\n");
}

#[test]
fn property_with_bad_name_offset() {
    let mut s = Vec::new();
    begin(&mut s, b"");
    prop(&mut s, 1000, &[1]);
    word(&mut s, FDT_END_NODE);
    word(&mut s, FDT_END);
    let blob = blob_with(&s, b"reg\0");
    let (dt, _) = device_tree_from_ram_ptr(&blob);
    let evs = dt.events();
    assert_eq!(evs.len(), 2);
    assert_eq!(evs[1], Event::Diagnostic(FdtError::MalformedStringTableEntry));
    assert_eq!(text(dt.print_structure()), "\nInvalid string table entry\n");
}

#[test]
fn structure_past_the_blob_is_truncated() {
    let mut s = Vec::new();
    begin(&mut s, b"");
    word(&mut s, FDT_PROP);
    word(&mut s, 64);
    word(&mut s, 0);
    let mut blob = blob_with(&s, b"");
    // claim a structure block longer than the blob
    blob[36..40].copy_from_slice(&1000u32.to_be_bytes());
    blob.extend_from_slice(b"reg\0");
    let strings_off = (blob.len() - 4) as u32;
    blob[12..16].copy_from_slice(&strings_off.to_be_bytes());
    let (dt, _) = device_tree_from_ram_ptr(&blob);
    let evs = dt.events();
    assert_eq!(evs.len(), 2);
    assert_eq!(evs[1], Event::Diagnostic(FdtError::Truncated));

    let mut t = Vec::new();
    begin(&mut t, b"");
    let mut blob = blob_with(&t, b"");
    blob[36..40].copy_from_slice(&100u32.to_be_bytes());
    let (dt, _) = device_tree_from_ram_ptr(&blob);
    assert_eq!(dt.events()[1], Event::Diagnostic(FdtError::Truncated));
}

#[test]
fn zeroed_descriptor_walk_reports_missing_end() {
    let (dt, err) = device_tree_from_ram_ptr(&[0xde, 0xad, 0xbe, 0xef]);
    assert_eq!(err, Some(FdtError::MagicMismatch(0xdeadbeef)));
    assert_eq!(dt.events(), vec![Event::Diagnostic(FdtError::MissingEndTag)]);
}

#[test]
fn diagnostic_lines() {
    let cases = [
        (FdtError::MagicMismatch(0xdeadbeef), "Invalid device tree magic 0xdeadbeef\n"),
        (FdtError::MagicMismatch(0), "Invalid device tree magic 0x0\n"),
        (FdtError::Truncated, "Read past the end of the blob\n"),
        (FdtError::InvalidNodeName, "<invalid node name>\n"),
        (FdtError::InvalidNesting, "Invalid end node\n"),
        (FdtError::UnknownTag(0x10), "Unknown tag 0x10\n"),
        (FdtError::MissingEndTag, "No end tag found\n"),
        (FdtError::MalformedStringTableEntry, "Invalid string table entry\n"),
    ];
    for (e, expected) in cases {
        let mut out = Vec::new();
        render_diagnostic(&mut out, e);
        assert_eq!(text(out), expected);
    }
}

#[test]
fn console_indent_two_spaces_per_level() {
    let mut out = b"x".to_vec();
    device_tree::render::console_indent(&mut out, 3);
    assert_eq!(text(out), "x      ");
    let mut out = Vec::new();
    device_tree::render::console_indent(&mut out, 0);
    assert!(out.is_empty());
}
