use warloc::decode::decode;
use warloc::decode::keep_valid;
use warloc::token::CharRun;

#[test]
fn decode_reads_characters_of_one_to_four_bytes() {
    assert_eq!(decode("a\u{e9}\u{20ac}\u{1f600}\n".as_bytes()), vec!['a', '\u{e9}', '\u{20ac}', '\u{1f600}', '\n']);
    assert_eq!(decode(b""), Vec::<char>::new());
}

#[test]
fn decode_passes_over_bytes_that_encode_no_character() {
    assert_eq!(decode(b"a\xffb"), vec!['a', 'b']);
    assert_eq!(decode(b"a\x80\xbfb"), vec!['a', 'b']);
    assert_eq!(decode(b"a\xc3"), vec!['a']);
    assert_eq!(decode(b"\xe2\x82Ab"), vec!['A', 'b']);
    assert_eq!(decode(b"\xc1\xbfa"), vec!['a']);
    assert_eq!(decode(b"\xed\xa0\x80a"), vec!['a']);
}

#[test]
fn keep_valid_keeps_the_order() {
    assert_eq!(keep_valid(&vec![Some('a'), None, Some('b'), None, None, Some('a')]), vec!['a', 'b', 'a']);
    assert_eq!(keep_valid(&vec![None, None]), Vec::<char>::new());
    assert_eq!(keep_valid(&vec![]), Vec::<char>::new());
}

#[test]
fn runs_take_their_own_characters() {
    assert!(CharRun::BlockComment.takes('!') && CharRun::BlockComment.takes('*') && CharRun::BlockComment.takes('/'));
    assert!(!CharRun::BlockComment.takes('#') && !CharRun::BlockComment.takes(' '));
    assert!(CharRun::Attribute.takes('[') && CharRun::Attribute.takes(' ') && CharRun::Attribute.takes('#'));
    assert!(!CharRun::Attribute.takes(']') && !CharRun::Attribute.takes('\n'));
    assert!(CharRun::StringClose.takes('#') && !CharRun::StringClose.takes('"'));
    assert!(CharRun::StringOpen.takes('#') && CharRun::StringOpen.takes('"') && !CharRun::StringOpen.takes('r'));
}
