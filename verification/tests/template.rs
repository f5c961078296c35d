use shaken::template::{Template, TemplateError};

#[test]
fn parse_template() {
    let template = Template::parse("hello ${world}. a ${test} : ${answer}").unwrap();
    let s = template
        .apply(&[
            ("world", 42.to_string()),
            ("test", false.to_string()),
            ("answer", "foobar".to_string()),
        ])
        .unwrap();
    assert_eq!(s, "hello 42. a false : foobar");

    let template = Template::parse("hello ${asdf}${bar}").unwrap();
    let s = template
        .apply(&[("asdf", (2 + 2).to_string()), ("bar", (1 + 1).to_string())])
        .unwrap();
    assert_eq!(s, "hello 42");

    let template = Template::parse("${another_long_thing} | some              ${spaces}").unwrap();
    let s = template
        .apply(&[
            ("another_long_thing", "\"this is a string\"".to_string()),
            ("spaces", "-".repeat(30)),
        ])
        .unwrap();
    assert_eq!(
        s,
        "\"this is a string\" | some              ------------------------------"
    );

    let err = Template::parse("asdf ${something").unwrap_err();
    assert_eq!(err, TemplateError::Unbalanced(5)); // start counting from 0

    let template = Template::parse("${test}").unwrap();
    let err = template
        .apply(&[("a", 0.to_string()), ("b", 0.to_string())])
        .unwrap_err();
    assert_eq!(err, TemplateError::Mismatch(2, 1));

    let template = Template::parse("${test}").unwrap();
    let err = template.apply(&[("a", 0.to_string())]).unwrap_err();
    assert_eq!(err, TemplateError::Unexpected("test", "a"));

    let template = Template::parse("this has nothing in it").unwrap();
    assert_eq!(template.inner(), "this has nothing in it");
    let s = template.apply(&[]).unwrap();
    assert_eq!(s, "this has nothing in it");
}

#[test]
fn template_offsets_are_bytes() {
    let err = Template::parse("héllo ${x").unwrap_err();
    assert_eq!(err, TemplateError::Unbalanced(7));
    let template = Template::parse("é${x}é${y}").unwrap();
    let s = template.apply(&[("x", "1".to_string()), ("y", "2".to_string())]).unwrap();
    assert_eq!(s, "é1é2");
}

#[test]
fn reopened_placeholder_starts_again() {
    let template = Template::parse("${a ${b}").unwrap();
    let s = template.apply(&[("b", "x".to_string())]).unwrap();
    assert_eq!(s, "${a x");
}

use shaken::template::ResponseFinder;

#[test]
fn response_finder_lines() {
    let text = "greet => \"hello ${name}\"\n  \"bye\"=>see you\r\nno arrow here\nx => a => b\n";
    let mut finder = ResponseFinder::from_text(text);

    let t = finder.get("greet").ok().unwrap();
    assert_eq!(t.inner(), "hello ${name}");
    assert_eq!(t.apply(&[("name", "you".to_string())]).ok().unwrap(), "hello you");

    assert_eq!(finder.get("bye").ok().unwrap().inner(), "see you");
    assert_eq!(finder.get("x").ok().unwrap().inner(), "a");
    assert!(matches!(finder.get("no arrow here"), Err(TemplateError::Missing("no arrow here"))));

    finder.insert("greet".to_string(), "hi ${".to_string());
    assert!(matches!(finder.get("greet"), Err(TemplateError::Unbalanced(3))));

    let mut entries = finder.entries();
    entries.sort();
    assert_eq!(entries.len(), 3);
    assert_eq!(entries[0], ("bye".to_string(), "see you".to_string()));
}

#[test]
fn template_error_messages() {
    assert_eq!(
        TemplateError::Unbalanced(6).to_text(),
        "unbalanced bracket starting at: 6"
    );
    assert_eq!(
        TemplateError::Unexpected("world", "earth").to_text(),
        "expected world, got: earth"
    );
    assert_eq!(
        TemplateError::Mismatch(1, 2).to_text(),
        "mismatch counts expected: 2, got: 1"
    );
    assert_eq!(TemplateError::Missing("hello").to_text(), "template 'hello' is missing");
    let err = Template::parse("hello ${world").err().unwrap();
    assert_eq!(err.to_text(), "unbalanced bracket starting at: 6");
}

#[test]
fn longer_value_shifts_later_placeholders() {
    // the fill moves later placeholders back by the difference in length whichever way
    // the length changed, so a value longer than its placeholder, before the last, lands
    // the next value in the wrong place
    let template = Template::parse("${a} ${b}").unwrap();
    let s = template
        .apply(&[("a", "123456".to_string()), ("b", "x".to_string())])
        .unwrap();
    assert_eq!(s, "123x${b}");
    // values no longer than their placeholders are substituted in place
    let template = Template::parse("${a} ${b}").unwrap();
    let s = template.apply(&[("a", "12".to_string()), ("b", "xyz".to_string())]).unwrap();
    assert_eq!(s, "12 xyz");
}
