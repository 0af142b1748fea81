use harness::session::Turn;
use harness::types::Message;

#[test]
fn creates_user_turn() {
    let turn = Turn::new("hello");
    assert_eq!(turn.messages, vec![Message::User { content: "hello".into() }]);
}
