use fx::discovery::escape_xml;
use fx::discovery::xml_header;

#[test]
fn test_xml_header() {
    // Ensure last symbol is a newline and thus trimmed.
    assert_ne!(xml_header(), xml_header().trim());
}

#[test]
fn test_escape_xml() {
    assert_eq!(escape_xml("foo&bar"), "foo&amp;bar");
}

#[test]
fn escape_xml_covers_all_special_characters() {
    assert_eq!(escape_xml("<a href=\"x\">'q' & more</a>"),
        "&lt;a href=&quot;x&quot;&gt;&apos;q&apos; &amp; more&lt;/a&gt;");
    assert_eq!(escape_xml("plain"), "plain");
    assert_eq!(escape_xml(""), "");
}
