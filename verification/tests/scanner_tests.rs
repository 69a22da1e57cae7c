use txml::Attrs;
use txml::Error;
use txml::Event;
use txml::Parser;
use txml::Text;

fn only_event(s: &str) -> Result<Event<'_>, Error> {
    let mut p = Parser::new(s);
    let ev = p.next().unwrap();
    assert_eq!(p.next(), None, "extra event found");
    ev
}

fn all_events(text: &str) -> Result<Vec<Event<'_>>, Error> {
    let mut events = Vec::new();
    let mut p = Parser::new(text);
    loop {
        match p.next() {
            Some(Ok(ev)) => events.push(ev),
            Some(Err(e)) => return Err(e),
            None => return Ok(events),
        }
    }
}

#[test]
fn system_doctype() {
    const DOC: &'static str = r#"<?xml version="1.0"?>
<!DOCTYPE greeting SYSTEM "hello.dtd">
<greeting>Hello, world!</greeting>"#;
    assert_eq!(
        all_events(DOC).unwrap(),
        [
            Event::Pi("xml version=\"1.0\""),
            Event::Text(Text::Escaped("\n")),
            Event::Doctype("greeting SYSTEM \"hello.dtd\"", ""),
            Event::Text(Text::Escaped("\n")),
            Event::Open("greeting", Attrs::new("")),
            Event::Text(Text::Escaped("Hello, world!")),
            Event::Close("greeting")
        ]
    );
}

#[test]
fn local_doctype() {
    const DOC: &'static str = r#"<?xml version="1.0" encoding="UTF-8"?>
<!DOCTYPE greeting [
 <!ELEMENT greeting (#PCDATA)>
]>
<greeting>Hello, world!</greeting>"#;
    assert_eq!(
        all_events(DOC).unwrap(),
        [
            Event::Pi(r#"xml version="1.0" encoding="UTF-8""#),
            Event::Text(Text::Escaped("\n")),
            Event::Doctype("greeting", "<!ELEMENT greeting (#PCDATA)>"),
            Event::Text(Text::Escaped("\n")),
            Event::Open("greeting", Attrs::new("")),
            Event::Text(Text::Escaped("Hello, world!")),
            Event::Close("greeting"),
        ]
    );
}

#[test]
fn unterminated_cdata() {
    const DOC: &'static str = "<![CDATA[unclosed";
    let result = only_event(DOC);
    assert_eq!(result, Err(Error::UnterminatedCdata));
}

#[test]
fn valid_cdata() {
    const DOC: &'static str = "<![CDATA[content]]>";
    let Ok(Event::Text(text)) = only_event(DOC) else {
        panic!("unexpected event type")
    };
    assert_eq!(text, Text::Verbatim("content"));
}

#[test]
fn empty_cdata() {
    const DOC: &'static str = "<![CDATA[]]>";
    let Ok(Event::Text(text)) = only_event(DOC) else {
        panic!("unexpected event type")
    };
    assert_eq!(text, Text::Verbatim(""));
}

#[test]
fn self_closing() {
    const DOC: &'static str = "<element attr='value' />";
    let events = all_events(DOC).unwrap();
    assert_eq!(
        events.clone(),
        [
            Event::Open("element", Attrs::new("attr='value'")),
            Event::Close("element")
        ]
    );
    let Event::Open(_, mut attrs) = events[0].clone() else {
        panic!("unexpected event type")
    };
    assert_eq!(attrs.next(), Some(Ok(("attr", Text::Escaped("value")))));
    assert_eq!(attrs.next(), None);
}

#[test]
fn no_markup_is_one_verbatim_text_event() {
    const DOC: &'static str = "just a plain line of text";
    let Ok(Event::Text(text)) = only_event(DOC) else {
        panic!("unexpected event type")
    };
    assert_eq!(text, Text::Verbatim(DOC));
    let (chars, err) = text.decode_all();
    assert_eq!(err, None);
    let decoded: String = chars.into_iter().collect();
    assert_eq!(decoded, DOC);
}

#[test]
fn entity_only_input_is_one_escaped_text_event() {
    const DOC: &'static str = "&lt;";
    let Ok(Event::Text(text)) = only_event(DOC) else {
        panic!("unexpected event type")
    };
    assert_eq!(text, Text::Escaped(DOC));
}

#[test]
fn self_closing_without_space() {
    const DOC: &'static str = "<el a='v'/>";
    let events = all_events(DOC).unwrap();
    assert_eq!(events.len(), 2);
    assert_eq!(events[1], Event::Close("el"));
    let Event::Open(name, mut attrs) = events[0].clone() else {
        panic!("unexpected event type")
    };
    assert_eq!(name, "el");
    assert_eq!(attrs.next(), Some(Ok(("a", Text::Escaped("v")))));
    assert_eq!(attrs.next(), None);
}

#[test]
fn bare_self_closing_tag() {
    const DOC: &'static str = "<br/>";
    assert_eq!(
        all_events(DOC).unwrap(),
        [Event::Open("br", Attrs::new("")), Event::Close("br")]
    );
}

#[test]
fn comment_event() {
    const DOC: &'static str = "<!-- note -->";
    assert_eq!(only_event(DOC), Ok(Event::Comment(" note ")));
}

#[test]
fn pi_event() {
    const DOC: &'static str = "<?target data?>";
    assert_eq!(only_event(DOC), Ok(Event::Pi("target data")));
}

#[test]
fn close_tag_trims_whitespace() {
    const DOC: &'static str = "</ el >";
    assert_eq!(only_event(DOC), Ok(Event::Close("el")));
}

#[test]
fn standalone_doctype_forms() {
    assert_eq!(
        only_event("<!DOCTYPE greeting [ <!ELEMENT greeting (#PCDATA)> ]>"),
        Ok(Event::Doctype("greeting", "<!ELEMENT greeting (#PCDATA)>"))
    );
    assert_eq!(
        only_event("<!DOCTYPE greeting SYSTEM \"hello.dtd\">"),
        Ok(Event::Doctype("greeting SYSTEM \"hello.dtd\"", ""))
    );
}

#[test]
fn scanner_error_poisons_stream() {
    let mut p = Parser::new("<el");
    assert_eq!(p.next(), Some(Err(Error::UnterminatedTag)));
    assert_eq!(p.next(), None);
    assert_eq!(p.next(), None);
}

#[test]
fn error_after_self_closing_clears_pending() {
    let mut p = Parser::new("<a/><b");
    assert!(matches!(p.next(), Some(Ok(Event::Open("a", _)))));
    assert_eq!(p.next(), Some(Ok(Event::Close("a"))));
    assert_eq!(p.next(), Some(Err(Error::UnterminatedTag)));
    assert_eq!(p.next(), None);
}

#[test]
fn unterminated_constructs_each_report_their_error() {
    assert_eq!(only_event("<?pi"), Err(Error::UnterminatedPi));
    assert_eq!(only_event("<!--c"), Err(Error::UnterminatedComment));
    assert_eq!(only_event("<!DOCTYPE x"), Err(Error::UnterminatedDoctype));
    assert_eq!(
        only_event("<!DOCTYPE x [ <!ELEMENT x EMPTY>"),
        Err(Error::UnterminatedDoctypeSubset)
    );
    assert_eq!(
        only_event("<!DOCTYPE x [ <!ELEMENT x EMPTY> ]"),
        Err(Error::UnterminatedDoctype)
    );
    assert_eq!(only_event("</el"), Err(Error::UnterminatedClosingTag));
    assert_eq!(only_event("<el"), Err(Error::UnterminatedTag));
    assert_eq!(only_event("</>"), Err(Error::InvalidTagName));
    assert_eq!(only_event("< el>"), Err(Error::InvalidTagName));
    assert_eq!(only_event("<el a='v>"), Err(Error::AttrMissingEndQuote));
}

#[test]
fn quoted_angle_bracket_does_not_end_tag() {
    const DOC: &'static str = "<el a='x>y'>";
    let Ok(Event::Open(name, attrs)) = only_event(DOC) else {
        panic!("unexpected event type")
    };
    assert_eq!(name, "el");
    assert_eq!(attrs, Attrs::new("a='x>y'"));
}

#[test]
fn scanner_error_messages() {
    assert_eq!(
        Error::UnterminatedCdata.message(),
        "unterminated CDATA section (missing ']]>')"
    );
    assert_eq!(Error::InvalidTagName.message(), "invalid tag name");
    assert_eq!(
        Error::UnterminatedTag.message(),
        "unterminated tag (missing '>')"
    );
}
