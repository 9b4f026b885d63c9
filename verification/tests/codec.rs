use cilly::bytecode_translation::translate::{get_ext, split, translate_from, translate_to};
use cilly::error::Error;
use cilly::text::{int_to_text, parse_int, render, translate_from_text, translate_to_text};
use cilly::vm::{OpCode, Output};

fn every_opcode() -> Vec<OpCode> {
    vec![
        OpCode::LoadConst(-5),
        OpCode::LoadTrue,
        OpCode::LoadFalse,
        OpCode::LoadNull,
        OpCode::LoadGlobal(7),
        OpCode::StoreGlobal(8),
        OpCode::Jmp(9),
        OpCode::JmpTrue(10),
        OpCode::JmpFalse(11),
        OpCode::PrintItem,
        OpCode::PrintNewline,
        OpCode::GetInt,
        OpCode::Pop,
        OpCode::UniOpNot,
        OpCode::UniOpNeg,
        OpCode::StorePC,
        OpCode::LoadPC,
        OpCode::StoreVar(1, 2),
        OpCode::LoadVar(3, 4),
        OpCode::EnterScope(0),
        OpCode::LeaveScope,
        OpCode::MakeClosure,
        OpCode::Call(12, 2),
        OpCode::Ret,
        OpCode::BinOpAdd,
        OpCode::BinOpSub,
        OpCode::BinOpMul,
        OpCode::BinOpDiv,
        OpCode::BinOpGt,
        OpCode::BinOpGe,
        OpCode::BinOpLt,
        OpCode::BinOpLe,
        OpCode::BinOpEq,
        OpCode::BinOpNe,
        OpCode::BinOpOr,
        OpCode::BinOpAnd,
    ]
}

#[test]
fn each_instruction_has_its_tag() {
    let minus_five = (-5i32) as usize;
    assert_eq!(
        translate_to(every_opcode()),
        vec![
            1, minus_five, 2, 3, 4, 5, 7, 6, 8, 10, 9, 11, 10, 12, 11, 13, 14, 15, 16, 17, 18, 19,
            20, 21, 1, 2, 22, 3, 4, 23, 0, 24, 25, 26, 12, 2, 27, 100, 101, 102, 103, 104, 105,
            106, 107, 108, 109, 110, 111,
        ]
    );
}

#[test]
fn decoding_inverts_encoding() {
    let code = every_opcode();
    let back = translate_from(translate_to(code.clone())).expect("the words decode");
    assert_eq!(back, code);
}

#[test]
fn empty_program_round_trip() {
    assert_eq!(translate_to(vec![]), Vec::<usize>::new());
    assert_eq!(translate_from(vec![]).expect("nothing decodes to nothing"), vec![]);
}

#[test]
fn constants_travel_as_unsigned_words() {
    assert_eq!(translate_to(vec![OpCode::LoadConst(3)]), vec![1, 3]);
    assert_eq!(translate_to(vec![OpCode::LoadConst(-1)]), vec![1, usize::MAX]);
    assert_eq!(
        translate_from(vec![1, usize::MAX]).expect("decodes"),
        vec![OpCode::LoadConst(-1)]
    );
    assert_eq!(
        translate_from(vec![1, 4294967295]).expect("decodes"),
        vec![OpCode::LoadConst(-1)]
    );
    assert_eq!(
        translate_from(vec![1, 2147483648]).expect("decodes"),
        vec![OpCode::LoadConst(i32::MIN)]
    );
}

#[test]
fn an_unknown_tag_is_reported_with_its_index() {
    assert!(matches!(translate_from(vec![0]), Err(Error::DecodeError(0))));
    assert!(matches!(translate_from(vec![2, 27, 7, 3]), Err(Error::DecodeError(2))));
    assert!(matches!(translate_from(vec![1, 9, 99]), Err(Error::DecodeError(2))));
    assert!(matches!(translate_from(vec![112]), Err(Error::DecodeError(0))));
    assert!(matches!(translate_from(vec![28]), Err(Error::DecodeError(0))));
}

#[test]
fn missing_operands_are_reported_at_the_tag() {
    assert!(matches!(translate_from(vec![1]), Err(Error::DecodeError(0))));
    assert!(matches!(translate_from(vec![27, 26, 5]), Err(Error::DecodeError(1))));
    assert!(matches!(translate_from(vec![21, 0]), Err(Error::DecodeError(0))));
}

#[test]
fn operands_are_not_taken_for_tags() {
    assert_eq!(
        translate_from(vec![5, 0, 26, 999, 112]).expect("decodes"),
        vec![OpCode::LoadGlobal(0), OpCode::Call(999, 112)]
    );
}

#[test]
fn context_is_packed_into_one_word() {
    assert_eq!(get_ext(0, 0, 0), 0);
    assert_eq!(get_ext(0, 0, 5), 5);
    assert_eq!(get_ext(0, 1, 5), 65536 + 5);
    assert_eq!(get_ext(1, 0, 5), 131072 + 5);
    assert_eq!(get_ext(3, 1, 65535), 3 * 131072 + 65536 + 65535);
}

#[test]
fn context_comes_apart_again() {
    assert_eq!(split(0), (0, 0, 0));
    assert_eq!(split(65536 + 5), (0, 1, 5));
    assert_eq!(split(get_ext(1, 0, 7)), (1, 0, 7));
    assert_eq!(split(get_ext(32767, 1, 65535)), (32767, 1, 65535));
}

#[test]
fn words_become_decimal_text() {
    assert_eq!(translate_to_text(&vec![]), b"".to_vec());
    assert_eq!(translate_to_text(&vec![0]), b"0 ".to_vec());
    assert_eq!(translate_to_text(&vec![1, 3, 100, 27]), b"1 3 100 27 ".to_vec());
    assert_eq!(translate_to_text(&vec![1234567890]), b"1234567890 ".to_vec());
}

#[test]
fn text_becomes_words() {
    assert_eq!(translate_from_text(&b"".to_vec()).expect("reads"), Vec::<usize>::new());
    assert_eq!(translate_from_text(&b" \n\t ".to_vec()).expect("reads"), Vec::<usize>::new());
    assert_eq!(translate_from_text(&b"1 3 100 27 ".to_vec()).expect("reads"), vec![1, 3, 100, 27]);
    assert_eq!(translate_from_text(&b"  7\n008\r\n9".to_vec()).expect("reads"), vec![7, 8, 9]);
}

#[test]
fn text_round_trip() {
    let words = vec![0, 9, 10, 99, 100, 65535, usize::MAX];
    assert_eq!(translate_from_text(&translate_to_text(&words)).expect("reads"), words);
}

#[test]
fn text_that_is_no_number_is_reported_where_it_starts() {
    assert!(matches!(translate_from_text(&b"12 x3 4".to_vec()), Err(Error::TextError(3))));
    assert!(matches!(translate_from_text(&b"12 3x 4".to_vec()), Err(Error::TextError(3))));
    assert!(matches!(translate_from_text(&b"-1".to_vec()), Err(Error::TextError(0))));
    assert!(matches!(translate_from_text(&b" +1".to_vec()), Err(Error::TextError(1))));
    assert!(matches!(
        translate_from_text(&b"1 99999999999999999999999999 2".to_vec()),
        Err(Error::TextError(2))
    ));
}

#[test]
fn largest_word_is_read_and_the_next_is_not() {
    let largest = usize::MAX.to_string();
    assert_eq!(translate_from_text(&largest.clone().into_bytes()).expect("reads"), vec![usize::MAX]);
    let mut digits = largest.into_bytes();
    let last = digits.len() - 1;
    digits[last] += 1;
    assert!(matches!(translate_from_text(&digits), Err(Error::TextError(0))));
}

#[test]
fn integers_are_written_in_decimal() {
    assert_eq!(int_to_text(0), b"0".to_vec());
    assert_eq!(int_to_text(7), b"7".to_vec());
    assert_eq!(int_to_text(-7), b"-7".to_vec());
    assert_eq!(int_to_text(120), b"120".to_vec());
    assert_eq!(int_to_text(i32::MAX), b"2147483647".to_vec());
    assert_eq!(int_to_text(i32::MIN), b"-2147483648".to_vec());
}

#[test]
fn lines_are_read_as_integers() {
    assert_eq!(parse_int(&b"7\n".to_vec()), Some(7));
    assert_eq!(parse_int(&b"  -12  \r\n".to_vec()), Some(-12));
    assert_eq!(parse_int(&b"+5".to_vec()), Some(5));
    assert_eq!(parse_int(&b"007".to_vec()), Some(7));
    assert_eq!(parse_int(&b"2147483647".to_vec()), Some(i32::MAX));
    assert_eq!(parse_int(&b"-2147483648".to_vec()), Some(i32::MIN));
}

#[test]
fn lines_that_hold_no_integer() {
    assert_eq!(parse_int(&b"".to_vec()), None);
    assert_eq!(parse_int(&b"\n".to_vec()), None);
    assert_eq!(parse_int(&b"-".to_vec()), None);
    assert_eq!(parse_int(&b"seven".to_vec()), None);
    assert_eq!(parse_int(&b"7 8".to_vec()), None);
    assert_eq!(parse_int(&b"7x".to_vec()), None);
    assert_eq!(parse_int(&b"- 7".to_vec()), None);
    assert_eq!(parse_int(&b"2147483648".to_vec()), None);
    assert_eq!(parse_int(&b"-2147483649".to_vec()), None);
    assert_eq!(parse_int(&b"99999999999999999999999".to_vec()), None);
}

#[test]
fn written_integers_are_read_back() {
    for v in [0, 1, -1, 10, -10, 12345, i32::MAX, i32::MIN] {
        assert_eq!(parse_int(&int_to_text(v)), Some(v));
    }
}

#[test]
fn output_is_rendered_as_text() {
    let out = vec![Output::Item(3), Output::Newline, Output::Item(-45), Output::Item(6)];
    assert_eq!(render(&out), b"3\n-456".to_vec());
    assert_eq!(render(&vec![]), Vec::<u8>::new());
}
