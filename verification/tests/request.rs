use shaken::request::Request;

#[test]
fn make_request() {
    let input = "!this is a test";
    let _req = Request::try_parse("#test", 0, input).unwrap();

    let input = "!hello";
    let _req = Request::try_parse("#test", 0, input).unwrap();

    let input = "!";
    assert_eq!(Request::try_parse("#test", 0, input), None);

    let input = "foo bar";
    assert_eq!(Request::try_parse("#test", 0, input), None);
}

#[test]
fn search_request() {
    let input = "!this";
    let req = Request::try_parse("#test", 0, input).unwrap();

    let req = req.search("!this");
    let found = req.unwrap();
    assert_eq!(found.sender(), 0);
    assert_eq!(found.name(), Some("!this"));
    assert_eq!(found.args(), "");
    assert_eq!(found.target(), "#test");

    let req = req.unwrap().search("test");
    assert_eq!(req, None);
}

#[test]
fn search_sub_request() {
    let input = "!this is a test";
    let req = Request::try_parse("#test", 0, input).unwrap();
    let req = req.search("!this is");
    let found = req.unwrap();
    assert_eq!(found.sender(), 0);
    assert_eq!(found.name(), Some("!this is"));
    assert_eq!(found.args(), "a test");
    assert_eq!(found.target(), "#test");

    let req = req.unwrap().search("this");
    assert_eq!(req, None);

    let input = "!this is a test";
    let req = Request::try_parse("#test", 0, input).unwrap();
    let req = req.search("test");
    assert_eq!(req, None);
}

#[test]
fn is_from_owner() {
    let owners = [23196011i64];
    let req = Request::try_parse("#test", 23196011, "!this is a test").unwrap();
    assert_eq!(req.is_from_owner(&owners), true);

    let req = Request::try_parse("#test", 42, "!this is a test").unwrap();
    assert_eq!(req.is_from_owner(&owners), false);
}

#[test]
fn unknown_sender_is_refused() {
    assert_eq!(Request::try_parse("#test", -1, "!hello"), None);
}

#[test]
fn args_are_split_on_whitespace() {
    let req = Request::try_parse("#test", 1, "!give  foo\t10 ").unwrap();
    let req = req.search("!give").unwrap();
    assert_eq!(req.args(), "foo\t10");
    assert_eq!(req.args_iter(), vec!["foo", "10"]);
}

#[test]
fn search_twice_gives_the_same_request() {
    let req = Request::try_parse("#test", 7, "!poll start 10").unwrap();
    let found = req.search("!poll start").unwrap();
    assert_eq!(found.search("!poll start"), Some(found));
    assert_eq!(req.search("!"), None);
}
