use netlabs::letter::Format;

#[test]
fn format_names() {
    assert_eq!(Format::parse("txt").unwrap(), Format::Txt);
    assert_eq!(Format::parse("html").unwrap(), Format::Html);
    assert_eq!(Format::parse("pdf").unwrap_err().0, "pdf");
    assert!(Format::parse("TXT").is_err());
}

#[test]
fn format_media_types() {
    assert_eq!(Format::Html.content_type(), "text/html; charset=utf-8");
    assert_eq!(Format::Txt.content_type(), "text/plain; charset=utf-8");
}
