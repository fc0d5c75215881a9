//! The XML field extractor on concrete documents.

use onvif_cam::xml::parse_soap;
use onvif_cam::xml::scan_document;
use onvif_cam::xml::xml_envelope;

#[test]
fn all_mode_returns_every_occurrence_in_order() {
    let values = vec![b"one".to_vec(), b"two".to_vec(), b"three".to_vec()];
    let doc = xml_envelope(b"Profiles", b"Token", &values);
    let got = parse_soap(&doc, b"Token", Some(b"Profiles"), false, false);
    assert_eq!(got, values);
}

#[test]
fn single_mode_returns_only_the_first() {
    let values = vec![b"one".to_vec(), b"two".to_vec(), b"three".to_vec()];
    let doc = xml_envelope(b"Profiles", b"Token", &values);
    let got = parse_soap(&doc, b"Token", Some(b"Profiles"), true, false);
    assert_eq!(got, vec![b"one".to_vec()]);
}

#[test]
fn round_trip_keeps_whitespace_verbatim() {
    // The captured text is the raw run, surrounding whitespace included.
    let values = vec![b"  192.168.1.5  ".to_vec()];
    let doc = xml_envelope(b"a", b"b", &values);
    assert_eq!(doc, b"<a><b>  192.168.1.5  </b></a>".to_vec());
    let got = parse_soap(&doc, b"b", None, true, false);
    assert_eq!(got, vec![b"  192.168.1.5  ".to_vec()]);
}

#[test]
fn namespace_prefixes_are_stripped() {
    let doc = b"<tt:Envelope><tt:XAddr>http://cam/onvif</tt:XAddr></tt:Envelope>";
    let got = parse_soap(doc, b"XAddr", None, true, false);
    assert_eq!(got, vec![b"http://cam/onvif".to_vec()]);
}

#[test]
fn parent_scope_gates_matching() {
    let doc = b"<Caps><Media><XAddr>http://m</XAddr></Media><Events><XAddr>http://e</XAddr></Events></Caps>";
    let got = parse_soap(doc, b"XAddr", Some(b"Events"), true, false);
    assert_eq!(got, vec![b"http://e".to_vec()]);
}

#[test]
fn parent_scope_is_sticky_once_entered() {
    // After the parent has been seen once, later matches outside it are
    // taken too: scoping does not reset per sibling.
    let doc = b"<r><P><T>in</T></P><T>after</T></r>";
    let got = parse_soap(doc, b"T", Some(b"P"), false, false);
    assert_eq!(got, vec![b"in".to_vec(), b"after".to_vec()]);
}

#[test]
fn other_elements_between_targets_are_not_taken() {
    let doc = b"<P><T>a</T><N>skip</N><T>b</T></P>";
    let all = parse_soap(doc, b"T", Some(b"P"), false, false);
    assert_eq!(all, vec![b"a".to_vec(), b"b".to_vec()]);
    let first = parse_soap(doc, b"T", Some(b"P"), true, false);
    assert_eq!(first, vec![b"a".to_vec()]);
}

#[test]
fn missing_element_gives_empty_result() {
    let doc = b"<a><b>x</b></a>";
    let got = parse_soap(doc, b"zzz", None, true, false);
    assert!(got.is_empty());
}

#[test]
fn attribute_mode_returns_name_value_pairs() {
    let doc = b"<tds:Capabilities PullPointSupport=\"true\" MaxPullPoints=\"2\"/>";
    let got = parse_soap(doc, b"Capabilities", None, true, true);
    assert_eq!(got, vec![b"PullPointSupport=true".to_vec(), b"MaxPullPoints=2".to_vec()]);
}

#[test]
fn malformed_document_yields_partial_result() {
    let doc = b"<a><b>kept</b><c";
    let got = parse_soap(doc, b"b", None, false, false);
    assert_eq!(got, vec![b"kept".to_vec()]);
    assert!(matches!(
        scan_document(doc),
        Err(onvif_cam::error::OnvifError::MalformedResponse)
    ));
}

#[test]
fn well_formed_document_scans_clean() {
    let doc = b"<a><b>x</b></a>";
    assert!(scan_document(doc).is_ok());
}

#[test]
fn whitespace_only_runs_are_skipped() {
    let doc = b"<a><b>   </b><b>real</b></a>";
    let got = parse_soap(doc, b"b", None, false, false);
    assert_eq!(got, vec![b"real".to_vec()]);
}

#[test]
fn self_closing_element_captures_no_text() {
    let doc = b"<a><b/>outside<b>inside</b></a>";
    let got = parse_soap(doc, b"b", None, false, false);
    assert_eq!(got, vec![b"inside".to_vec()]);
}
