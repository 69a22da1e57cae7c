use txml::Error;
use txml::Event;
use txml::Parser;
use txml::Text;

fn only_event(s: &str) -> Result<Event<'_>, Error> {
    let mut p = Parser::new(s);
    let ev = p.next().unwrap();
    assert_eq!(p.next(), None, "extra event found");
    ev
}

fn collect_text(text: &Text<'_>) -> Result<String, Error> {
    let (chars, err) = text.decode_all();
    match err {
        Some(e) => Err(e),
        None => Ok(chars.into_iter().collect()),
    }
}

fn only_text(s: &str) -> Result<String, Error> {
    let mut res = String::new();
    let mut p = Parser::new(s);
    loop {
        let ev = match p.next() {
            Some(ev) => ev,
            None => break,
        };
        let Ok(Event::Text(mut text)) = ev else {
            panic!("unexpected event type")
        };
        loop {
            match text.next() {
                Some(Ok(c)) => res.push(c),
                Some(Err(e)) => return Err(e),
                None => break,
            }
        }
    }
    Ok(res)
}

#[test]
fn named_entities() {
    const DOC: &'static str = "&lt;&gt;&amp;&apos;&quot;";
    assert_eq!(only_text(DOC), Ok("<>&'\"".into()));
}

#[test]
fn numeric_entities() {
    const DOC: &'static str = "&#60;&#x3E;";
    let mut events = Vec::new();
    let mut p = Parser::new(DOC);
    while let Some(ev) = p.next() {
        events.push(ev.unwrap());
    }
    let Event::Text(text_0) = events[0].clone() else {
        panic!("unexpected event type")
    };
    let Event::Text(text_1) = events[1].clone() else {
        panic!("unexpected event type")
    };
    assert_eq!(events.len(), 2);
    assert_eq!(text_0, Text::Escaped("&#60;"));
    assert_eq!(collect_text(&text_0), Ok("<".into()));
    assert_eq!(text_1, Text::Escaped("&#x3E;"));
    assert_eq!(collect_text(&text_1), Ok(">".into()));
}

#[test]
fn unterminated_named_entity() {
    const DOC: &'static str = "&lt";
    let Ok(Event::Text(text)) = only_event(DOC) else {
        panic!("unexpected event type")
    };
    assert_eq!(text, Text::Escaped(DOC));
    assert_eq!(collect_text(&text), Err(Error::UnterminatedEntity));
}

#[test]
fn invalid_decimal_numeric_entity() {
    const DOC: &'static str = "&#1000000000;";
    let Ok(Event::Text(text)) = only_event(DOC) else {
        panic!("unexpected event type")
    };
    assert_eq!(text, Text::Escaped(DOC));
    assert_eq!(collect_text(&text), Err(Error::InvalidNumericEntity));
}

#[test]
fn invalid_hex_numeric_entity_size() {
    const DOC: &'static str = "&#x1000000000;";
    let Ok(Event::Text(text)) = only_event(DOC) else {
        panic!("unexpected event type")
    };
    assert_eq!(text, Text::Escaped(DOC));
    assert_eq!(collect_text(&text), Err(Error::InvalidNumericEntity));
}

#[test]
fn invalid_hex_numeric_entity_chars() {
    const DOC: &'static str = "&#xGHIJ;";
    let Ok(Event::Text(text)) = only_event(DOC) else {
        panic!("unexpected event type")
    };
    assert_eq!(collect_text(&text), Err(Error::InvalidNumericEntity));
}

#[test]
fn uppercase_hex_marker_entity() {
    let text = Text::Escaped("&#X3e;");
    assert_eq!(collect_text(&text), Ok(">".into()));
}

#[test]
fn invalid_named_entity() {
    let text = Text::Escaped("&bogus;");
    assert_eq!(collect_text(&text), Err(Error::InvalidNamedEntity));
}

#[test]
fn empty_numeric_entity_is_invalid() {
    assert_eq!(
        collect_text(&Text::Escaped("&#;")),
        Err(Error::InvalidNumericEntity)
    );
    assert_eq!(
        collect_text(&Text::Escaped("&#x;")),
        Err(Error::InvalidNumericEntity)
    );
}

#[test]
fn surrogate_code_point_is_invalid() {
    assert_eq!(
        collect_text(&Text::Escaped("&#xD800;")),
        Err(Error::InvalidNumericEntity)
    );
}

#[test]
fn decoding_same_slice_twice_gives_same_result() {
    let first = collect_text(&Text::Escaped("a&#60;b&gt;"));
    let second = collect_text(&Text::Escaped("a&#60;b&gt;"));
    assert_eq!(first, Ok("a<b>".into()));
    assert_eq!(first, second);
    let bad_first = collect_text(&Text::Escaped("&nope;"));
    let bad_second = collect_text(&Text::Escaped("&nope;"));
    assert_eq!(bad_first, bad_second);
}

#[test]
fn plain_text_round_trip() {
    let original = "just some plain text 123";
    assert_eq!(collect_text(&Text::Escaped(original)), Ok(original.into()));
    assert_eq!(collect_text(&Text::Verbatim(original)), Ok(original.into()));
}

#[test]
fn text_error_poisons_cursor() {
    let mut text = Text::Escaped("&bad;after");
    assert_eq!(text.next(), Some(Err(Error::InvalidNamedEntity)));
    assert_eq!(text.next(), None);
    assert_eq!(text.next(), None);
}

#[test]
fn verbatim_and_escaped_compare_decoded() {
    assert_eq!(Text::Verbatim("<>"), Text::Escaped("&lt;&gt;"));
    assert!(Text::Verbatim("&") == Text::Escaped("&amp;"));
    assert!(Text::Verbatim("a") != Text::Escaped("b"));
    assert!(Text::Escaped("&lt;").eq_str("<"));
    assert!(!Text::Escaped("&lt").eq_str("&lt"));
}

#[test]
fn error_messages_describe_the_defect() {
    assert_eq!(
        Error::UnterminatedEntity.message(),
        "unterminated entity (missing ';')"
    );
    assert_eq!(Error::InvalidNamedEntity.message(), "invalid named entity");
    assert_eq!(
        Error::InvalidNumericEntity.message(),
        "invalid numeric entity"
    );
}
