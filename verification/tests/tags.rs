use shaken::color::RGB;
use shaken::tags::{Kappa, Tags};
use std::ops::Range;

#[test]
fn make_kappas() {
    let inputs = &[
        (
            "25:0-4,6-10,12-16",
            vec![Kappa {
                id: 25,
                ranges: vec![
                    Range { start: 0, end: 4 },
                    Range { start: 6, end: 10 },
                    Range { start: 12, end: 16 },
                ],
            }],
        ),
        (
            "25:0-4",
            vec![Kappa {
                id: 25,
                ranges: vec![Range { start: 0, end: 4 }],
            }],
        ),
        (
            "1077966:0-6/25:8-12",
            vec![
                Kappa {
                    id: 107_7966,
                    ranges: vec![Range { start: 0, end: 6 }],
                },
                Kappa {
                    id: 25,
                    ranges: vec![Range { start: 8, end: 12 }],
                },
            ],
        ),
        (
            "25:0-4,6-10/33:12-19",
            vec![
                Kappa {
                    id: 25,
                    ranges: vec![Range { start: 0, end: 4 }, Range { start: 6, end: 10 }],
                },
                Kappa {
                    id: 33,
                    ranges: vec![Range { start: 12, end: 19 }],
                },
            ],
        ),
        (
            "25:0-4,15-19/33:6-13",
            vec![
                Kappa {
                    id: 25,
                    ranges: vec![Range { start: 0, end: 4 }, Range { start: 15, end: 19 }],
                },
                Kappa {
                    id: 33,
                    ranges: vec![Range { start: 6, end: 13 }],
                },
            ],
        ),
        (
            "33:0-7/25:9-13,15-19",
            vec![
                Kappa {
                    id: 33,
                    ranges: vec![Range { start: 0, end: 7 }],
                },
                Kappa {
                    id: 25,
                    ranges: vec![Range { start: 9, end: 13 }, Range { start: 15, end: 19 }],
                },
            ],
        ),
    ];

    for (input, expect) in inputs {
        let kappas = Kappa::new(&input);
        assert_eq!(kappas.len(), expect.len());
        assert_eq!(kappas, *expect);
    }
}

#[test]
fn malformed_kappas_are_skipped() {
    assert_eq!(Kappa::new(""), vec![]);
    assert_eq!(Kappa::new("25"), vec![]);
    assert_eq!(Kappa::new("25:0-x/33:1-2"), vec![Kappa { id: 33, ranges: vec![Range { start: 1, end: 2 }] }]);
    assert_eq!(Kappa::new("25:0/"), vec![]);
    assert_eq!(Kappa::new("25:+1-2-3,"), vec![Kappa { id: 25, ranges: vec![Range { start: 1, end: 2 }] }]);
    assert_eq!(Kappa::new("25:0-70000"), vec![]);
}

#[test]
fn tags_by_name() {
    let tags = Tags::new("user-id=1000;display-name=Test;color=#FF0000;emotes=25:0-4;novalue;user-id=1001");
    assert_eq!(tags.get_userid(), Some("1001"));
    assert_eq!(tags.get_display(), Some("Test"));
    assert_eq!(tags.get("novalue"), None);
    assert_eq!(tags.get("missing"), None);
    assert_eq!(tags.get_color(), Some(RGB(255, 0, 0)));
    assert_eq!(
        tags.get_kappas(),
        Some(vec![Kappa { id: 25, ranges: vec![Range { start: 0, end: 4 }] }])
    );
}

#[test]
fn tags_defaults() {
    let tags = Tags::new("emotes=;color=;a=b=c");
    assert_eq!(tags.get_kappas(), None);
    assert_eq!(tags.get_color(), Some(RGB(255, 255, 255)));
    assert_eq!(tags.get("a"), Some("b=c"));
    let none = Tags::new("");
    assert_eq!(none.get_kappas(), None);
    assert_eq!(none.get_color(), Some(RGB(255, 255, 255)));
}

#[test]
fn colors() {
    assert_eq!(RGB::from_str("#f0f0f0"), RGB(0xf0, 0xf0, 0xf0));
    assert_eq!(RGB::from_str("fc0fc0"), RGB(0xfc, 0x0f, 0xc0));
    assert_eq!(RGB::from_str("#12345"), RGB(255, 255, 255));
    assert_eq!(RGB::from_str("#12345g"), RGB(255, 255, 255));
}

#[test]
fn last_piece_wins() {
    let tags = Tags::new("user-id=1000;display-name=test;badges");
    assert_eq!(tags.get("user-id"), Some("1000"));
    assert_eq!(tags.get("display-name"), Some("test"));
    assert_eq!(tags.get("badges"), None);
    assert_eq!(tags.get("color"), None);
    let tags = Tags::new("a=1;b=x=y;a=2;");
    assert_eq!(tags.get("a"), Some("2"));
    assert_eq!(tags.get("b"), Some("x=y"));
}
