use roc_str::{small_str, RocStr, Utf8ByteProblem, Utf8Error, ROC_STR_MEM_SIZE};

fn roc(s: &str) -> RocStr {
    RocStr::from_slice(s.as_bytes())
}

fn count_graphemes(s: &str) -> usize {
    roc(s).count_graphemes()
}

fn contents(pieces: &[RocStr]) -> Vec<Vec<u8>> {
    pieces.iter().map(|p| p.to_bytes()).collect()
}

fn small_pieces(pieces: &[RocStr]) -> Vec<[u8; ROC_STR_MEM_SIZE]> {
    pieces.iter().map(|p| p.small_bytes().unwrap()).collect()
}

fn first_or(pieces: Vec<RocStr>, fallback: &str) -> RocStr {
    match pieces.into_iter().next() {
        Some(s) => s,
        None => roc(fallback),
    }
}

fn decoded_or_empty(bytes: &[u8]) -> RocStr {
    match RocStr::from_utf8(bytes) {
        Ok(val) => val,
        Err(_) => roc(""),
    }
}

fn problem_marker(bytes: &[u8], problem: Utf8ByteProblem, index: usize) -> RocStr {
    match RocStr::from_utf8(bytes) {
        Err(e) if e.problem == problem => {
            if e.byte_index == index {
                roc("a")
            } else {
                roc("b")
            }
        }
        _ => roc(""),
    }
}

const J15: [u8; 16] = [
    0x4a, 0x4a, 0x4a, 0x4a, 0x4a, 0x4a, 0x4a, 0x4a, 0x4a, 0x4a, 0x4a, 0x4a, 0x4a, 0x4a, 0x4a,
    0b1000_1111,
];

#[test]
fn str_split_bigger_delimiter_small_str() {
    assert_eq!(roc("hello").split(&roc("JJJJ there")).len(), 1);
    let first = first_or(roc("JJJ").split(&roc("JJJJ there")), "");
    assert_eq!(first.count_graphemes(), 3);
}

#[test]
fn str_split_str_concat_repeated() {
    let str = first_or(roc("JJJJJ").split(&roc("JJJJ there")), "Not Str!");
    let result = str.concat(&str).concat(&str).concat(&str).concat(&str);
    assert_eq!(result, roc("JJJJJJJJJJJJJJJJJJJJJJJJJ"));
}

#[test]
fn str_split_small_str_bigger_delimiter() {
    let first = first_or(roc("JJJ").split(&roc("0123456789abcdefghi")), "");
    assert_eq!(first.small_bytes(), Some(small_str("JJJ")));
}

#[test]
fn str_split_big_str_small_delimiter() {
    let pieces = roc("01234567789abcdefghi?01234567789abcdefghi").split(&roc("?"));
    assert_eq!(
        contents(&pieces),
        vec![b"01234567789abcdefghi".to_vec(), b"01234567789abcdefghi".to_vec()]
    );
    let pieces = roc("01234567789abcdefghi 3ch 01234567789abcdefghi").split(&roc("3ch"));
    assert_eq!(
        contents(&pieces),
        vec![b"01234567789abcdefghi ".to_vec(), b" 01234567789abcdefghi".to_vec()]
    );
}

#[test]
fn str_split_small_str_small_delimiter() {
    let pieces = roc("J!J!J").split(&roc("!"));
    assert_eq!(
        small_pieces(&pieces),
        vec![small_str("J"), small_str("J"), small_str("J")]
    );
}

#[test]
fn str_split_bigger_delimiter_big_strs() {
    let pieces = roc("string to split is shorter")
        .split(&roc("than the delimiter which happens to be very very long"));
    assert_eq!(contents(&pieces), vec![b"string to split is shorter".to_vec()]);
}

#[test]
fn str_split_empty_strs() {
    let pieces = roc("").split(&roc(""));
    assert_eq!(small_pieces(&pieces), vec![small_str("")]);
}

#[test]
fn str_split_minimal_example() {
    let pieces = roc("a,").split(&roc(","));
    assert_eq!(small_pieces(&pieces), vec![small_str("a"), small_str("")]);
}

#[test]
fn str_split_small_str_big_delimiter() {
    let source = roc("1---- ---- ---- ---- ----2---- ---- ---- ---- ----");
    let delimiter = roc("---- ---- ---- ---- ----");
    assert_eq!(source.split(&delimiter).len(), 3);
    assert_eq!(
        small_pieces(&source.split(&delimiter)),
        vec![small_str("1"), small_str("2"), small_str("")]
    );
}

#[test]
fn str_split_small_str_20_char_delimiter() {
    let pieces = roc("3|-- -- -- -- -- -- |4|-- -- -- -- -- -- |").split(&roc("|-- -- -- -- -- -- |"));
    assert_eq!(
        small_pieces(&pieces),
        vec![small_str("3"), small_str("4"), small_str("")]
    );
}

#[test]
fn str_concat_big_to_big() {
    let a = roc("First string that is fairly long. Longer strings make for different errors. ");
    let b = roc("Second string that is also fairly long. Two long strings test things that might not appear with short strings.");
    assert_eq!(
        a.concat(&b),
        roc("First string that is fairly long. Longer strings make for different errors. Second string that is also fairly long. Two long strings test things that might not appear with short strings.")
    );
}

#[test]
fn small_str_literal() {
    assert_eq!(roc("JJJJJJJJJJJJJJJ").small_bytes(), Some(J15));
}

#[test]
fn small_str_zeroed_literal() {
    // Unused bytes are zero, so that equality of raw bytes cannot fail on
    // whatever memory held before.
    assert_eq!(
        roc("J").small_bytes(),
        Some([
            0x4a, 0x00, 0x00, 0x00, 0x00, 0x00, 0x00, 0x00, 0x00, 0x00, 0x00, 0x00, 0x00, 0x00,
            0x00, 0b1000_0001
        ])
    );
}

#[test]
fn small_str_concat_empty_first_arg() {
    assert_eq!(roc("").concat(&roc("JJJJJJJJJJJJJJJ")).small_bytes(), Some(J15));
}

#[test]
fn small_str_concat_empty_second_arg() {
    assert_eq!(roc("JJJJJJJJJJJJJJJ").concat(&roc("")).small_bytes(), Some(J15));
}

#[test]
fn small_str_concat_small_to_big() {
    assert_eq!(
        roc("abc").concat(&roc(" this is longer than 15 chars")),
        roc("abc this is longer than 15 chars")
    );
}

#[test]
fn small_str_concat_small_to_small_staying_small() {
    assert_eq!(roc("J").concat(&roc("JJJJJJJJJJJJJJ")).small_bytes(), Some(J15));
}

#[test]
fn small_str_concat_small_to_small_overflow_to_big() {
    assert_eq!(
        roc("abcdefghijklm").concat(&roc("nopqrstuvwxyz")),
        roc("abcdefghijklmnopqrstuvwxyz")
    );
}

#[test]
fn str_concat_empty() {
    assert_eq!(roc("").concat(&roc("")), roc(""));
}

#[test]
fn small_str_is_empty() {
    assert_eq!(roc("abc").is_empty(), false);
}

#[test]
fn big_str_is_empty() {
    assert_eq!(roc("this is more than 15 chars long").is_empty(), false);
}

#[test]
fn empty_str_is_empty() {
    assert_eq!(roc("").is_empty(), true);
}

#[test]
fn str_starts_with() {
    assert_eq!(roc("hello world").starts_with(&roc("hell")), true);
    assert_eq!(roc("hello world").starts_with(&roc("")), true);
    assert_eq!(roc("nope").starts_with(&roc("hello world")), false);
    assert_eq!(roc("hell").starts_with(&roc("hello world")), false);
    assert_eq!(roc("").starts_with(&roc("hello world")), false);
}

#[test]
fn str_ends_with() {
    assert_eq!(roc("hello world").ends_with(&roc("world")), true);
    assert_eq!(roc("nope").ends_with(&roc("hello world")), false);
    assert_eq!(roc("").ends_with(&roc("hello world")), false);
}

#[test]
fn str_count_graphemes_small_str() {
    assert_eq!(count_graphemes("å🤔"), 2);
}

#[test]
fn str_count_graphemes_three_js() {
    assert_eq!(count_graphemes("JJJ"), 3);
}

#[test]
fn str_count_graphemes_big_str() {
    assert_eq!(
        count_graphemes("6🤔å🤔e¥🤔çppkd🙃1jdal🦯asdfa∆ltråø˚waia8918.,🏅jjc"),
        45
    );
}

#[test]
fn str_starts_with_same_big_str() {
    assert_eq!(
        roc("123456789123456789").starts_with(&roc("123456789123456789")),
        true
    );
}

#[test]
fn str_starts_with_different_big_str() {
    assert_eq!(
        roc("12345678912345678910").starts_with(&roc("123456789123456789")),
        true
    );
}

#[test]
fn str_starts_with_same_small_str() {
    assert_eq!(roc("1234").starts_with(&roc("1234")), true);
}

#[test]
fn str_starts_with_different_small_str() {
    assert_eq!(roc("1234").starts_with(&roc("12")), true);
}

#[test]
fn str_starts_with_false_small_str() {
    assert_eq!(roc("1234").starts_with(&roc("23")), false);
}

#[test]
fn str_from_int() {
    assert_eq!(RocStr::from_int(1234), RocStr::from_slice("1234".as_bytes()));
    assert_eq!(RocStr::from_int(0), RocStr::from_slice("0".as_bytes()));
    assert_eq!(RocStr::from_int(-1), RocStr::from_slice("-1".as_bytes()));

    let max = format!("{}", i64::MAX);
    assert_eq!(RocStr::from_int(i64::MAX), roc(&max));

    let min = format!("{}", i64::MIN);
    assert_eq!(RocStr::from_int(i64::MIN), roc(&min));
}

#[test]
fn str_from_utf8_pass_single_ascii() {
    assert_eq!(decoded_or_empty(&[97]), RocStr::from_slice("a".as_bytes()));
}

#[test]
fn str_from_utf8_pass_many_ascii() {
    assert_eq!(
        decoded_or_empty(&[97, 98, 99, 0x7E]),
        RocStr::from_slice("abc~".as_bytes())
    );
}

#[test]
fn str_from_utf8_pass_single_unicode() {
    assert_eq!(
        decoded_or_empty(&[0xE2, 0x88, 0x86]),
        RocStr::from_slice("∆".as_bytes())
    );
}

#[test]
fn str_from_utf8_pass_many_unicode() {
    assert_eq!(
        decoded_or_empty(&[0xE2, 0x88, 0x86, 0xC5, 0x93, 0xC2, 0xAC]),
        RocStr::from_slice("∆œ¬".as_bytes())
    );
}

#[test]
fn str_from_utf8_pass_single_grapheme() {
    assert_eq!(
        decoded_or_empty(&[0xF0, 0x9F, 0x92, 0x96]),
        RocStr::from_slice("💖".as_bytes())
    );
}

#[test]
fn str_from_utf8_pass_many_grapheme() {
    assert_eq!(
        decoded_or_empty(&[
            0xF0, 0x9F, 0x92, 0x96, 0xF0, 0x9F, 0xA4, 0xA0, 0xF0, 0x9F, 0x9A, 0x80
        ]),
        RocStr::from_slice("💖🤠🚀".as_bytes())
    );
}

#[test]
fn str_from_utf8_pass_all() {
    assert_eq!(
        decoded_or_empty(&[0xF0, 0x9F, 0x92, 0x96, 98, 0xE2, 0x88, 0x86]),
        RocStr::from_slice("💖b∆".as_bytes())
    );
}

#[test]
fn str_from_utf8_fail_invalid_start_byte() {
    assert_eq!(
        problem_marker(&[97, 98, 0x80, 99], Utf8ByteProblem::InvalidStartByte, 2),
        RocStr::from_slice("a".as_bytes())
    );
}

#[test]
fn str_from_utf8_fail_unexpected_end_of_sequence() {
    assert_eq!(
        problem_marker(&[97, 98, 99, 0xC2], Utf8ByteProblem::UnexpectedEndOfSequence, 3),
        RocStr::from_slice("a".as_bytes())
    );
}

#[test]
fn str_from_utf8_fail_expected_continuation() {
    assert_eq!(
        problem_marker(&[97, 98, 99, 0xC2, 0x00], Utf8ByteProblem::ExpectedContinuation, 3),
        RocStr::from_slice("a".as_bytes())
    );
}

#[test]
fn str_from_utf8_fail_overlong_encoding() {
    assert_eq!(
        problem_marker(&[97, 0xF0, 0x80, 0x80, 0x80], Utf8ByteProblem::OverlongEncoding, 1),
        RocStr::from_slice("a".as_bytes())
    );
}

#[test]
fn str_from_utf8_fail_codepoint_too_large() {
    assert_eq!(
        problem_marker(&[97, 0xF4, 0x90, 0x80, 0x80], Utf8ByteProblem::CodepointTooLarge, 1),
        RocStr::from_slice("a".as_bytes())
    );
}

#[test]
fn str_from_utf8_fail_surrogate_half() {
    assert_eq!(
        problem_marker(&[97, 98, 0xED, 0xA0, 0x80], Utf8ByteProblem::EncodesSurrogateHalf, 2),
        RocStr::from_slice("a".as_bytes())
    );
}

#[test]
fn str_equality() {
    assert_eq!(roc("a") == roc("a"), true);
    assert_eq!(
        roc("loremipsumdolarsitamet") == roc("loremipsumdolarsitamet"),
        true
    );
    assert_eq!(roc("a") != roc("b"), true);
    assert_eq!(roc("a") == roc("b"), false);
}

#[test]
fn str_clone() {
    let long = RocStr::from_slice("loremipsumdolarsitamet".as_bytes());
    let short = RocStr::from_slice("x".as_bytes());
    let empty = RocStr::from_slice("".as_bytes());

    assert_eq!(long.clone(), long);
    assert_eq!(short.clone(), short);
    assert_eq!(empty.clone(), empty);
}

enum Expr {
    Add(Box<Expr>, Box<Expr>),
    Val(i64),
    Var(i64),
}

fn print_expr(e: &Expr) -> RocStr {
    match e {
        Expr::Add(a, b) => roc("Add (")
            .concat(&print_expr(a))
            .concat(&roc(") ("))
            .concat(&print_expr(b))
            .concat(&roc(")")),
        Expr::Val(v) => roc("Val ").concat(&RocStr::from_int(*v)),
        Expr::Var(v) => roc("Var ").concat(&RocStr::from_int(*v)),
    }
}

#[test]
fn nested_recursive_literal() {
    let expr = Expr::Add(
        Box::new(Expr::Add(Box::new(Expr::Val(3)), Box::new(Expr::Val(1)))),
        Box::new(Expr::Add(Box::new(Expr::Val(1)), Box::new(Expr::Var(1)))),
    );
    assert_eq!(
        print_expr(&expr),
        roc("Add (Add (Val 3) (Val 1)) (Add (Val 1) (Var 1))")
    );
}

#[test]
fn str_join_comma_small() {
    assert_eq!(
        RocStr::join_with(&[roc("1"), roc("2")], &roc(", ")),
        roc("1, 2")
    );
}

#[test]
fn str_join_comma_big() {
    assert_eq!(
        RocStr::join_with(&[roc("10000000"), roc("2000000"), roc("30000000")], &roc(", ")),
        roc("10000000, 2000000, 30000000")
    );
}

#[test]
fn str_join_comma_single() {
    assert_eq!(RocStr::join_with(&[roc("1")], &roc(", ")), roc("1"));
}

#[test]
fn str_to_bytes() {
    assert_eq!(roc("hello").to_bytes(), vec![104, 101, 108, 108, 111]);
    assert_eq!(
        roc("this is a long string").to_bytes(),
        vec![
            116, 104, 105, 115, 32, 105, 115, 32, 97, 32, 108, 111, 110, 103, 32, 115, 116, 114,
            105, 110, 103
        ]
    );
}

#[test]
fn utf8_error_value_is_exact() {
    assert_eq!(
        RocStr::from_utf8(&[0x61, 0x62, 0x80, 0x63]).unwrap_err(),
        Utf8Error { problem: Utf8ByteProblem::InvalidStartByte, byte_index: 2 }
    );
}
