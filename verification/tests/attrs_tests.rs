use txml::Attrs;
use txml::Error;
use txml::Event;
use txml::Parser;
use txml::Text;

fn only_event(s: &str) -> Result<Event<'_>, Error> {
    let mut p = Parser::new(s);
    let ev = p.next().unwrap();
    assert_eq!(p.next(), None, "extra event found");
    ev
}

fn open_attrs(s: &str) -> Attrs<'_> {
    let Ok(Event::Open(_, attrs)) = only_event(s) else {
        panic!("unexpected event type")
    };
    attrs
}

#[test]
fn no_equals_character_in_attribute() {
    const DOC: &'static str = "<element attr>";
    let mut attrs = open_attrs(DOC);
    assert_eq!(attrs.next(), Some(Err(Error::AttrMissingEq)));
    assert_eq!(attrs.next(), None);
}

#[test]
fn no_quote_character_in_attribute() {
    const DOC: &'static str = "<element attr=>";
    let mut attrs = open_attrs(DOC);
    assert_eq!(attrs.next(), Some(Err(Error::AttrMissingQuote)));
    assert_eq!(attrs.next(), None);
}

#[test]
fn invalid_quote_character_in_attribute() {
    const DOC: &'static str = "<element attr=unquoted>";
    let mut attrs = open_attrs(DOC);
    assert_eq!(attrs.next(), Some(Err(Error::AttrInvalidQuote)));
    assert_eq!(attrs.next(), None);
}

#[test]
fn extra_whitespace_in_tag_after_attribute() {
    const DOC: &'static str = "<element attr='test' >";
    let mut attrs = open_attrs(DOC);
    assert_eq!(attrs.next(), Some(Ok(("attr", Text::Escaped("test")))));
    assert_eq!(attrs.next(), None);
}

#[test]
fn extra_whitespace_in_tag_between_attributes() {
    const DOC: &'static str = "<element attr='test'  attr='test'>";
    let mut attrs = open_attrs(DOC);
    assert_eq!(attrs.next(), Some(Ok(("attr", Text::Escaped("test")))));
    assert_eq!(attrs.next(), Some(Ok(("attr", Text::Escaped("test")))));
    assert_eq!(attrs.next(), None);
}

#[test]
fn unterminated_attribute_quote() {
    // The tag scan is quote-aware, so a quote left open inside the tag is
    // already a defect of the tag itself: the scanner reports the missing
    // end quote and the stream ends there.
    const DOC: &'static str = r#"<element attr="unterminated>"#;
    let result = only_event(DOC);
    assert_eq!(result, Err(Error::AttrMissingEndQuote));
}

#[test]
fn empty_attribute_name() {
    let mut attrs = open_attrs("<element ='value'>");
    assert_eq!(attrs.next(), Some(Err(Error::AttrInvalidName)));
    assert_eq!(attrs.next(), None);
}

#[test]
fn attribute_value_with_embedded_angle_bracket() {
    let mut attrs = open_attrs("<element attr='x>y'>");
    assert_eq!(attrs.next(), Some(Ok(("attr", Text::Escaped("x>y")))));
    assert_eq!(attrs.next(), None);
}

#[test]
fn attribute_value_round_trip() {
    let mut attrs = open_attrs("<element attr='plain value 42'>");
    let Some(Ok((name, value))) = attrs.next() else {
        panic!("expected one attribute")
    };
    assert_eq!(name, "attr");
    let (chars, err) = value.decode_all();
    assert_eq!(err, None);
    let decoded: String = chars.into_iter().collect();
    assert_eq!(decoded, "plain value 42");
}

#[test]
fn attribute_value_decodes_entities() {
    let mut attrs = open_attrs("<element attr='&lt;tag&gt;'>");
    assert_eq!(attrs.next(), Some(Ok(("attr", Text::Verbatim("<tag>")))));
}

#[test]
fn get_finds_first_match() {
    let attrs = open_attrs("<element a='1' b='2' a='3'>");
    assert_eq!(attrs.get("a"), Ok(Some(Text::Escaped("1"))));
    assert_eq!(attrs.get("b"), Ok(Some(Text::Escaped("2"))));
    assert_eq!(attrs.get("c"), Ok(None));
}

#[test]
fn get_propagates_earlier_error() {
    let attrs = open_attrs("<element broken>");
    assert_eq!(attrs.get("a"), Err(Error::AttrMissingEq));
}

#[test]
fn attrs_error_messages() {
    assert_eq!(
        Error::AttrMissingEq.message(),
        "'=' character not found in attribute"
    );
    assert_eq!(Error::AttrInvalidName.message(), "invalid attribute name");
}
