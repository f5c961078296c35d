use shaken::color::RGB;
use shaken::tags::Tags;
use shaken::user::User;

#[test]
fn user_from_message_tags() {
    let tags = Tags::new("user-id=1004;display-name=Test;color=#f0f0f0");
    assert_eq!(
        User::from_tags("PRIVMSG", &tags),
        Some(User {
            userid: 1004,
            display: "Test".into(),
            color: RGB::from_str("#f0f0f0"),
        })
    );
    assert_eq!(
        User::from_tags("WHISPER", &tags).map(|u| u.color),
        Some(RGB(0xf0, 0xf0, 0xf0))
    );
    assert_eq!(
        User::from_tags("GLOBALUSERSTATE", &tags).map(|u| u.color),
        Some(RGB(0xfc, 0x0f, 0xc0))
    );
    assert_eq!(User::from_tags("JOIN", &tags), None);

    let no_color = Tags::new("user-id=7;display-name=someone");
    assert_eq!(
        User::from_tags("PRIVMSG", &no_color).map(|u| u.color),
        Some(RGB(255, 255, 255))
    );
    let no_id = Tags::new("display-name=someone");
    assert_eq!(User::from_tags("PRIVMSG", &no_id), None);
    let bad_id = Tags::new("user-id=12ab;display-name=someone");
    assert_eq!(User::from_tags("PRIVMSG", &bad_id), None);
    let no_name = Tags::new("user-id=7");
    assert_eq!(User::from_tags("PRIVMSG", &no_name), None);
}
