use docwatch::extract::{
    absorb, get_docx_text, part_failure_message, text_from_part, text_of_events, xml_text,
    PartFailure, XmlEvent,
};
use std::io::Write;

fn archive(parts: &[(&str, &[u8])]) -> Vec<u8> {
    let mut writer = zip::ZipWriter::new(std::io::Cursor::new(Vec::new()));
    for (name, bytes) in parts {
        let options = zip::write::FileOptions::default()
            .compression_method(zip::CompressionMethod::Deflated);
        writer.start_file(*name, options).unwrap();
        writer.write_all(bytes).unwrap();
    }
    writer.finish().unwrap().into_inner()
}

const BODY: &str = "<?xml version=\"1.0\" encoding=\"UTF-8\"?>\n<w:document xmlns:w=\"http://schemas.openxmlformats.org/wordprocessingml/2006/main\"><w:body><w:p><w:r><w:t>Hello</w:t></w:r><w:r><w:t xml:space=\"preserve\"> world</w:t></w:r></w:p><w:p><w:r><w:t>Second &amp; last</w:t></w:r></w:p></w:body></w:document>";

#[test]
fn text_nodes_are_joined_in_document_order() {
    assert_eq!(xml_text("<a><b>one</b><c>two</c>three</a>"), "onetwothree");
    assert_eq!(xml_text(BODY), "\nHello worldSecond & last");
}

#[test]
fn runs_keep_the_space_they_end_with() {
    let body = "<w:document><w:body><w:p><w:r><w:t>Hello </w:t></w:r><w:r><w:t>world</w:t></w:r></w:p><w:p><w:r><w:t>!</w:t></w:r></w:p></w:body></w:document>";
    assert_eq!(xml_text(body), "Hello world!");
    let bytes = archive(&[("word/document.xml", body.as_bytes())]);
    assert_eq!(get_docx_text(&bytes), Ok("Hello world!".to_string()));
}

#[test]
fn markup_without_text_gives_no_text() {
    assert_eq!(xml_text(""), "");
    assert_eq!(xml_text("<a/>"), "");
    assert_eq!(xml_text("<a><!-- comment --><b attr=\"value\"/></a>"), "");
}

#[test]
fn text_is_unescaped_and_keeps_its_white_space() {
    assert_eq!(xml_text("<a>  padded  </a>"), "  padded  ");
    assert_eq!(xml_text("<a>&lt;tag&gt; &quot;q&quot; &#65;</a>"), "<tag> \"q\" A");
    assert_eq!(xml_text("<a>\n  <b>x</b>\n  <b>y</b>\n</a>"), "\n  x\n  y\n");
    assert_eq!(xml_text("<a><b>x</b> <b>y</b></a>"), "x y");
    assert_eq!(xml_text("  <a/>\t"), "  \t");
}

#[test]
fn text_that_cannot_be_unescaped_is_left_out() {
    assert_eq!(xml_text("<a><b>good</b><b>&unknown;</b><b>more</b></a>"), "goodmore");
}

#[test]
fn character_data_sections_are_not_text_nodes() {
    assert_eq!(xml_text("<a>before<![CDATA[inside]]>after</a>"), "beforeafter");
}

#[test]
fn reading_stops_where_the_document_is_malformed() {
    assert_eq!(xml_text("<a>kept</a></b>lost"), "kept");
    assert_eq!(xml_text("<a>kept<b"), "kept");
}

#[test]
fn events_add_their_text() {
    let mut text = String::from("so far");
    assert!(absorb(&mut text, &XmlEvent::Text(Some(" more".to_string()))));
    assert_eq!(text, "so far more");
    assert!(absorb(&mut text, &XmlEvent::Text(None)));
    assert!(absorb(&mut text, &XmlEvent::Other));
    assert_eq!(text, "so far more");
    assert!(!absorb(&mut text, &XmlEvent::Eof));
    assert!(!absorb(&mut text, &XmlEvent::Failed));
    assert_eq!(text, "so far more");
}

#[test]
fn text_of_a_run_of_events() {
    let events = vec![
        XmlEvent::Other,
        XmlEvent::Text(Some("a".to_string())),
        XmlEvent::Text(None),
        XmlEvent::Text(Some("b".to_string())),
        XmlEvent::Eof,
        XmlEvent::Text(Some("c".to_string())),
    ];
    assert_eq!(text_of_events(&events), "ab");
    assert_eq!(text_of_events(&vec![XmlEvent::Failed, XmlEvent::Text(Some("x".to_string()))]), "");
    assert_eq!(text_of_events(&Vec::new()), "");
    assert_eq!(text_of_events(&vec![XmlEvent::Text(Some("only".to_string()))]), "only");
}

#[test]
fn body_text_of_a_package() {
    let bytes = archive(&[
        ("[Content_Types].xml", b"<Types/>"),
        ("word/document.xml", BODY.as_bytes()),
        ("word/styles.xml", b"<styles>not this</styles>"),
    ]);
    assert_eq!(get_docx_text(&bytes), Ok("\nHello worldSecond & last".to_string()));
}

#[test]
fn bytes_that_are_no_archive() {
    let err = get_docx_text(b"plainly not a package").unwrap_err();
    assert!(err.starts_with("Failed to open DOCX zip: "), "{}", err);
    assert!(err.len() > "Failed to open DOCX zip: ".len());
    let empty = get_docx_text(&[]).unwrap_err();
    assert!(empty.starts_with("Failed to open DOCX zip: "), "{}", empty);
}

#[test]
fn package_without_a_body() {
    let bytes = archive(&[("word/styles.xml", b"<styles/>")]);
    let err = get_docx_text(&bytes).unwrap_err();
    assert_eq!(err, "Failed to find word/document.xml: specified file not found in archive");
}

#[test]
fn body_that_is_not_text() {
    let bytes = archive(&[("word/document.xml", &[0xff, 0xfe, 0x00, 0xc3])]);
    let err = get_docx_text(&bytes).unwrap_err();
    assert!(err.starts_with("Failed to read document.xml: "), "{}", err);
}

#[test]
fn failure_messages() {
    assert_eq!(part_failure_message(&PartFailure::Open("x".to_string())), "Failed to open DOCX zip: x");
    assert_eq!(
        part_failure_message(&PartFailure::Find("y".to_string())),
        "Failed to find word/document.xml: y"
    );
    assert_eq!(part_failure_message(&PartFailure::Read("z".to_string())), "Failed to read document.xml: z");
}

#[test]
fn text_from_a_part_that_was_read() {
    assert_eq!(text_from_part(Ok("<a>x<b>y</b></a>".to_string())), Ok("xy".to_string()));
    assert_eq!(
        text_from_part(Err(PartFailure::Read("bad".to_string()))),
        Err("Failed to read document.xml: bad".to_string())
    );
}
