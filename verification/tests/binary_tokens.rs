use eu4save::binary::StructureKind;
use eu4save::binary::{skip_value_step, token_size_of, Eu4Format, Eu4Token, SkipProgress, SkipState, TokenResult};

#[test]
fn reads_each_kind_of_token() {
    let mut f = Eu4Format;
    assert_eq!(f.next_token(&[0x4d, 0x28, 0xff]), TokenResult::Token(Eu4Token::Field(0x284d), 2));
    assert_eq!(f.next_token(&[0x01, 0x00]), TokenResult::Token(Eu4Token::Equal, 2));
    assert_eq!(f.next_token(&[0x03, 0x00]), TokenResult::Token(Eu4Token::Open, 2));
    assert_eq!(f.next_token(&[0x04, 0x00]), TokenResult::Token(Eu4Token::Close, 2));
    assert_eq!(
        f.next_token(&[0x0c, 0x00, 0x70, 0x98, 0x8d, 0x03]),
        TokenResult::Token(Eu4Token::I32(59611248), 6)
    );
    assert_eq!(
        f.next_token(&[0x0c, 0x00, 0xff, 0xff, 0xff, 0xff]),
        TokenResult::Token(Eu4Token::I32(-1), 6)
    );
    assert_eq!(
        f.next_token(&[0x14, 0x00, 0xff, 0xff, 0xff, 0xff]),
        TokenResult::Token(Eu4Token::U32(u32::MAX), 6)
    );
    assert_eq!(f.next_token(&[0x0e, 0x00, 0x01]), TokenResult::Token(Eu4Token::Bool(true), 3));
    assert_eq!(f.next_token(&[0x0e, 0x00, 0x00]), TokenResult::Token(Eu4Token::Bool(false), 3));
    assert_eq!(
        f.next_token(&[0x0f, 0x00, 0x03, 0x00, b'B', b'H', b'A', 0x01]),
        TokenResult::Token(Eu4Token::Quoted(b"BHA"), 7)
    );
    assert_eq!(
        f.next_token(&[0x17, 0x00, 0x02, 0x00, b'n', b'o']),
        TokenResult::Token(Eu4Token::Unquoted(b"no"), 6)
    );
    assert_eq!(
        f.next_token(&[0x0d, 0x00, 1, 2, 3, 4]),
        TokenResult::Token(Eu4Token::F32([1, 2, 3, 4]), 6)
    );
    assert_eq!(
        f.next_token(&[0x67, 0x01, 1, 2, 3, 4, 5, 6, 7, 8]),
        TokenResult::Token(Eu4Token::F64([1, 2, 3, 4, 5, 6, 7, 8]), 10)
    );
}

#[test]
fn short_buffers_ask_for_more() {
    let mut f = Eu4Format;
    assert_eq!(f.next_token(&[]), TokenResult::MoreData);
    assert_eq!(f.next_token(&[0x4d]), TokenResult::MoreData);
    assert_eq!(f.next_token(&[0x0c, 0x00, 0x70]), TokenResult::MoreData);
    assert_eq!(f.next_token(&[0x0f, 0x00, 0x03, 0x00, b'B']), TokenResult::MoreData);
    assert_eq!(token_size_of(&[0x0f, 0x00, 0x03]), None);
    assert_eq!(token_size_of(&[0x0f, 0x00, 0x03, 0x00, b'B', b'H', b'A']), Some(7));
    assert_eq!(token_size_of(&[0x01, 0x00]), Some(2));
}

#[test]
fn skipping_a_scalar_value() {
    // An i32 value.
    let data = [0x0c, 0x00, 0x70, 0x98, 0x8d, 0x03, 0x38, 0x2a];
    assert_eq!(skip_value_step(SkipState::Start, &data), SkipProgress::Done(6));
}

#[test]
fn skipping_a_container_with_nested_containers() {
    // { a { b } } then a field
    let data = [
        0x03, 0x00, 0x4d, 0x28, 0x03, 0x00, 0x4d, 0x28, 0x04, 0x00, 0x04, 0x00, 0x38, 0x2a,
    ];
    assert_eq!(skip_value_step(SkipState::Start, &data), SkipProgress::Done(12));
}

#[test]
fn skipping_resumes_where_the_buffer_ended() {
    let first = [0x03, 0x00, 0x4d, 0x28, 0x03, 0x00];
    match skip_value_step(SkipState::Start, &first) {
        SkipProgress::NeedMore(consumed, state) => {
            assert_eq!(consumed, 6);
            assert_eq!(state, SkipState::Container(2));
            let second = [0x04, 0x00, 0x04, 0x00, 0x01, 0x00];
            assert_eq!(skip_value_step(state, &second), SkipProgress::Done(4));
        }
        other => panic!("unexpected {:?}", other),
    }
}

#[test]
fn token_structure() {
    assert_eq!(Eu4Token::Open.structure(), StructureKind::Open);
    assert_eq!(Eu4Token::Close.structure(), StructureKind::Close);
    assert_eq!(Eu4Token::Equal.structure(), StructureKind::Equal);
    assert_eq!(Eu4Token::Field(0x284d).structure(), StructureKind::Value);
    assert_eq!(Eu4Token::Quoted(b"x").structure(), StructureKind::Value);
}
