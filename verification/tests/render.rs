use yewchat::render::{has_suffix, replace_all};
use yewchat::{render_body, Body, Chat, Msg};

fn chars(text: &str) -> Vec<char> {
    text.chars().collect()
}

fn text(body: &str) -> Body {
    Body::Text(body.to_string())
}

#[test]
fn gif_bodies_are_images() {
    assert_eq!(
        render_body("https://example.org/cat.gif"),
        Body::Image("https://example.org/cat.gif".to_string())
    );
    assert_eq!(render_body(".gif"), Body::Image(".gif".to_string()));
    assert_eq!(render_body(":smile:.gif"), Body::Image(":smile:.gif".to_string()));
}

#[test]
fn other_bodies_are_text() {
    assert_eq!(render_body(""), text(""));
    assert_eq!(render_body("gif"), text("gif"));
    assert_eq!(render_body("cat.gif "), text("cat.gif "));
    assert_eq!(render_body("cat.GIF"), text("cat.GIF"));
    assert_eq!(render_body("cat.gif?x=1"), text("cat.gif?x=1"));
    assert_eq!(render_body("plain words"), text("plain words"));
}

#[test]
fn tokens_become_emoji() {
    assert_eq!(render_body(":smile: hi"), text("\u{1F60A} hi"));
    assert_eq!(render_body("I :love: you"), text("I \u{2764}\u{FE0F} you"));
    assert_eq!(
        render_body(":love::smile::smile:"),
        text("\u{2764}\u{FE0F}\u{1F60A}\u{1F60A}")
    );
    assert_eq!(render_body(":smile"), text(":smile"));
    assert_eq!(render_body("smile:"), text("smile:"));
    assert_eq!(render_body(":smile:smile:"), text("\u{1F60A}smile:"));
    assert_eq!(render_body("::love::"), text(":\u{2764}\u{FE0F}:"));
    assert_eq!(render_body(":Smile:"), text(":Smile:"));
    assert_eq!(render_body("é:love:é"), text("é\u{2764}\u{FE0F}é"));
}

#[test]
fn rendering_agrees_with_the_standard_library() {
    let cases = vec![
        "",
        ":",
        "::",
        ":smile:",
        ":love:",
        ":smile::love:",
        ":smi:love:le:",
        ":lo:smile:ve:",
        "a:smile:b:smile:c",
        ":::smile:::",
        "no tokens here",
        "😊 :smile: ❤️ :love:",
    ];
    for case in cases {
        let expected = case.replace(":smile:", "😊").replace(":love:", "❤️");
        assert_eq!(render_body(case), Body::Text(expected), "{case:?}");
    }
}

#[test]
fn replace_all_takes_occurrences_from_the_left() {
    assert_eq!(replace_all(&chars("aaaa"), &chars("aa"), &chars("b")), chars("bb"));
    assert_eq!(replace_all(&chars("aaa"), &chars("aa"), &chars("b")), chars("ba"));
    assert_eq!(replace_all(&chars("abab"), &chars("ab"), &chars("")), chars(""));
    assert_eq!(replace_all(&chars("abc"), &chars("abcd"), &chars("x")), chars("abc"));
    assert_eq!(replace_all(&chars(""), &chars("a"), &chars("x")), chars(""));
    assert_eq!(replace_all(&chars("xay"), &chars("a"), &chars("aa")), chars("xaay"));
    assert_eq!(replace_all(&chars("abc"), &chars(""), &chars("x")), chars("abc"));
    assert_eq!(replace_all(&chars(""), &chars(""), &chars("x")), chars(""));
}

#[test]
fn has_suffix_compares_the_tail() {
    assert!(has_suffix(&chars("cat.gif"), &chars(".gif")));
    assert!(has_suffix(&chars("cat.gif"), &chars("")));
    assert!(has_suffix(&chars(""), &chars("")));
    assert!(!has_suffix(&chars("gif"), &chars(".gif")));
    assert!(!has_suffix(&chars("cat.gif"), &chars(".gi")));
}

#[test]
fn stored_text_is_not_touched_by_rendering() {
    let mut chat = Chat::new();
    chat.update(Msg::HandleMsg(
        r#"{"messageType":"message","dataArray":null,"data":"{\"from\":\"bob\",\"message\":\":smile: hi\"}"}"#
            .to_string(),
    ));
    let stored = &chat.messages()[0];
    assert_eq!(render_body(&stored.message), text("\u{1F60A} hi"));
    assert_eq!(stored.message, ":smile: hi");
}
