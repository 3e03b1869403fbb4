use btor::deparse::Deparser;
use btor::literal::{decode_literal, one_bits, ones_bits, zero_bits, ConstType};
use btor::model::ParseError;
use btor::op::{BiOpType, TriOpType, UniOpType};
use btor::parse::Parser;
use btor::sort::Sort;
use btor::system::Btor;
use btor::term::{OpKind, Term, TermNode};
use btor::text::{chars_of, parse_id, parse_signed_id, split_lines, split_tokens, ErrorKind};
use btor::ywb::{Clock, SignalPart, YosysWitnessBTOR};

fn chars(s: &str) -> Vec<char> {
    s.chars().collect()
}

fn parse(s: &str) -> Result<Btor, ParseError> {
    Parser::new().parse(s)
}

fn deparse(b: &Btor) -> String {
    Deparser::new().deparse(b).unwrap()
}

fn err_kind(s: &str) -> ErrorKind {
    parse(s).err().unwrap().kind
}

#[test]
fn decode_binary() {
    let r = decode_literal(ConstType::Const, 4, &chars("1010")).unwrap();
    assert_eq!(r, vec![false, true, false, true]);
}

#[test]
fn decode_negative_decimal() {
    let r = decode_literal(ConstType::Constd, 4, &chars("-3")).unwrap();
    assert_eq!(r, vec![true, false, true, true]);
}

#[test]
fn decode_hex() {
    let r = decode_literal(ConstType::Consth, 8, &chars("ff")).unwrap();
    assert_eq!(r, vec![true; 8]);
}

#[test]
fn decode_pads_with_zeros() {
    let r = decode_literal(ConstType::Constd, 6, &chars("5")).unwrap();
    assert_eq!(r, vec![true, false, true, false, false, false]);
}

#[test]
fn decode_decimal_zero_and_minus_zero() {
    assert_eq!(decode_literal(ConstType::Constd, 3, &chars("0")).unwrap(), vec![false; 3]);
    assert_eq!(decode_literal(ConstType::Constd, 3, &chars("-0")).unwrap(), vec![false; 3]);
}

#[test]
fn decode_most_negative() {
    let r = decode_literal(ConstType::Constd, 4, &chars("-8")).unwrap();
    assert_eq!(r, vec![false, false, false, true]);
}

#[test]
fn decode_too_wide() {
    assert_eq!(
        decode_literal(ConstType::Const, 3, &chars("1000")),
        Err(ErrorKind::MalformedLiteral)
    );
    assert_eq!(
        decode_literal(ConstType::Consth, 4, &chars("1f")),
        Err(ErrorKind::MalformedLiteral)
    );
}

#[test]
fn decode_bad_digits() {
    assert_eq!(
        decode_literal(ConstType::Const, 4, &chars("102")),
        Err(ErrorKind::MalformedLiteral)
    );
    assert_eq!(
        decode_literal(ConstType::Constd, 4, &chars("")),
        Err(ErrorKind::MalformedLiteral)
    );
    assert_eq!(
        decode_literal(ConstType::Constd, 4, &chars("-+3")),
        Err(ErrorKind::MalformedLiteral)
    );
}

#[test]
fn decode_sign_only_in_decimal() {
    assert_eq!(
        decode_literal(ConstType::Const, 4, &chars("-1")),
        Err(ErrorKind::MalformedLiteral)
    );
    assert_eq!(
        decode_literal(ConstType::Consth, 8, &chars("-f")),
        Err(ErrorKind::MalformedLiteral)
    );
}

#[test]
fn decode_separators() {
    let r = decode_literal(ConstType::Const, 4, &chars("10_10")).unwrap();
    assert_eq!(r, vec![false, true, false, true]);
}

#[test]
fn sugar_constants() {
    assert_eq!(zero_bits(3), vec![false, false, false]);
    assert_eq!(one_bits(3), vec![true, false, false]);
    assert_eq!(ones_bits(3), vec![true, true, true]);
}

#[test]
fn ids_and_signed_ids() {
    assert_eq!(parse_id(&chars("42")), Some(42));
    assert_eq!(parse_id(&chars("+7")), Some(7));
    assert_eq!(parse_id(&chars("-7")), None);
    assert_eq!(parse_id(&chars("4x")), None);
    assert_eq!(parse_id(&chars("")), None);
    assert_eq!(parse_id(&chars("99999999999999999999999")), None);
    assert_eq!(parse_signed_id(&chars("-5")), Some(-5));
    assert_eq!(parse_signed_id(&chars("12")), Some(12));
    assert_eq!(parse_signed_id(&chars("-")), None);
}

#[test]
fn lines_and_tokens() {
    let ls = split_lines(&chars_of("a b\n\n  c\td \n"));
    assert_eq!(ls.len(), 3);
    let t = split_tokens(&ls[2]);
    assert_eq!(t, vec![chars("c"), chars("d")]);
    assert!(split_tokens(&ls[1]).is_empty());
}

#[test]
fn end_to_end_as_written_is_a_sort_mismatch() {
    let e = parse("1 sort bitvec 8\n2 input 1\n3 zero 1\n4 eq 1 2 3\n5 bad 4\n").err().unwrap();
    assert_eq!(e, ParseError { line: 4, kind: ErrorKind::SortMismatch });
}

#[test]
fn end_to_end_equality_with_zero() {
    let mut b = parse("1 sort bitvec 8\n2 input 1\n3 zero 1\n6 sort bitvec 1\n4 eq 6 2 3\n5 bad 4\n")
        .unwrap();
    assert_eq!(b.input.len(), 1);
    assert_eq!(b.latch.len(), 0);
    assert_eq!(b.bad.len(), 1);
    let x = b.input[0];
    let zero = b.tm.bv_const(vec![false; 8]);
    let eq = b.tm.new_op(OpKind::Bi(BiOpType::Eq), vec![x, zero]).unwrap();
    assert_eq!(b.bad[0], eq);
    assert_eq!(b.tm.sort(eq), Sort::Bv(1));
}

#[test]
fn latch_with_next_stays() {
    let b = parse("1 sort bitvec 1\n2 state 1\n3 next 1 2 -2\n").unwrap();
    assert_eq!(b.latch.len(), 1);
    assert_eq!(b.input.len(), 0);
    assert_eq!(b.next, vec![(b.latch[0], b.latch[0].not())]);
}

#[test]
fn state_without_next_becomes_input() {
    let b = parse("1 sort bitvec 1\n2 input 1\n3 state 1\n4 state 1\n5 next 1 4 2\n").unwrap();
    assert_eq!(b.latch.len(), 1);
    assert_eq!(b.input.len(), 2);
    assert_eq!(b.latch[0], Term { node: 2, neg: false });
    assert_eq!(b.input[1], Term { node: 1, neg: false });
}

#[test]
fn init_without_next_is_inconsistent() {
    let e = parse("1 sort bitvec 1\n2 state 1\n3 zero 1\n4 init 1 2 3\n").err().unwrap();
    assert_eq!(e, ParseError { line: 0, kind: ErrorKind::InconsistentLatch });
}

#[test]
fn zero_extension_is_the_operand() {
    let e = parse("1 sort bitvec 4\n2 sort bitvec 1\n3 input 1\n4 uext 2 3 0\n").err().unwrap();
    assert_eq!(e, ParseError { line: 4, kind: ErrorKind::SortMismatch });
    let b = parse("1 sort bitvec 1\n2 input 1 x\n3 uext 1 2 0 y\n4 bad 3\n").unwrap();
    assert_eq!(b.bad[0], b.input[0]);
    assert_eq!(b.tm.len(), 1);
    let names: Vec<String> = b
        .symbols
        .iter()
        .filter(|p| p.0 == b.input[0])
        .map(|p| p.1.clone())
        .collect();
    assert_eq!(names, vec!["x".to_string(), "y".to_string()]);
}

#[test]
fn extension_builds_a_node() {
    let b = parse("1 sort bitvec 4\n2 sort bitvec 6\n3 input 1\n4 sext 2 3 2\n5 sort bitvec 1\n6 redor 5 4\n7 bad 6\n")
        .unwrap();
    match b.tm.node(Term { node: 1, neg: false }) {
        TermNode::Op(op, s, args) => {
            assert_eq!(*op, OpKind::Sext(2));
            assert_eq!(*s, Sort::Bv(6));
            assert_eq!(args, &vec![b.input[0]]);
        }
        _ => panic!("expected an operation"),
    }
}

#[test]
fn signed_reference_is_complement() {
    let b = parse("1 sort bitvec 1\n2 input 1\n3 bad -2\n").unwrap();
    assert_eq!(b.bad[0], b.input[0].not());
    assert_eq!(b.bad[0].not(), b.input[0]);
    assert_eq!(b.tm.len(), 1);
}

#[test]
fn structural_sharing() {
    let b = parse("1 sort bitvec 2\n2 input 1\n3 input 1\n4 add 1 2 3\n5 add 1 2 3\n6 sort bitvec 1\n7 eq 6 4 5\n8 bad 7\n")
        .unwrap();
    match b.tm.node(b.bad[0]) {
        TermNode::Op(_, _, args) => assert_eq!(args[0], args[1]),
        _ => panic!("expected an operation"),
    }
}

#[test]
fn comments_blank_lines_and_symbols() {
    let b = parse("; header\n\n1 sort bitvec 1\n2 input 1 req ; the request\n3 bad 2 ; no symbol\n")
        .unwrap();
    assert_eq!(b.symbols.len(), 1);
    assert_eq!(b.symbols[0].1, "req".to_string());
}

#[test]
fn errors_of_each_kind() {
    assert_eq!(err_kind("1 sort bitvec 1\n2 input 3\n"), ErrorKind::UndeclaredReference);
    assert_eq!(err_kind("1 sort bitvec 1\n2 bad 5\n"), ErrorKind::UndeclaredReference);
    assert_eq!(err_kind("1 sort bitvec 1\n2 input 1\n2 input 1\n"), ErrorKind::DuplicateId);
    assert_eq!(err_kind("1 sort bitvec 1\n1 sort bitvec 2\n"), ErrorKind::DuplicateId);
    assert_eq!(
        err_kind("1 sort bitvec 1\n2 sort bitvec 2\n3 input 1\n4 input 2\n5 and 1 3 4\n"),
        ErrorKind::SortMismatch
    );
    assert_eq!(err_kind("1 sort bitvec 2\n2 const 1 111\n"), ErrorKind::MalformedLiteral);
    assert_eq!(err_kind("1 sort bitvec 2\n2 sort array 1 1\n3 sort array 1 2\n"), ErrorKind::InvalidSort);
    assert_eq!(err_kind("1 sort bitvec 0\n"), ErrorKind::InvalidSort);
    assert_eq!(err_kind("1 sort list 3\n"), ErrorKind::InvalidSort);
    assert_eq!(err_kind("1 sort bitvec 1\n2 frobnicate 1 1\n"), ErrorKind::MalformedLine);
    assert_eq!(err_kind("x sort bitvec 1\n"), ErrorKind::MalformedLine);
}

#[test]
fn next_sort_must_match() {
    let e = parse("1 sort bitvec 1\n2 sort bitvec 2\n3 state 1\n4 input 2\n5 next 1 3 4\n").err().unwrap();
    assert_eq!(e, ParseError { line: 5, kind: ErrorKind::SortMismatch });
}

#[test]
fn deparse_simple_system() {
    let b = parse("1 sort bitvec 1\n2 input 1\n3 state 1\n4 zero 1\n5 init 1 3 4\n6 and 1 2 3\n7 next 1 3 -6\n8 bad 3\n")
        .unwrap();
    let text = deparse(&b);
    let expected = "1 sort bitvec 1\n2 input 1\n3 const 1 0\n4 state 1\n5 init 1 4 3\n6 and 1 2 4\n7 next 1 4 -6\n8 bad 4\n";
    assert_eq!(text, expected);
}

#[test]
fn deparse_writes_binary_constants_and_parameters() {
    let b = parse("1 sort bitvec 4\n2 consth 1 a\n3 sort bitvec 2\n4 slice 3 2 2 1\n5 sort bitvec 6\n6 uext 5 2 2\n7 sort bitvec 1\n8 redand 7 6\n9 redor 7 4\n10 constraint 8\n11 bad 9\n")
        .unwrap();
    let text = deparse(&b);
    let expected = "1 sort bitvec 1\n2 sort bitvec 2\n3 sort bitvec 4\n4 const 3 1010\n5 slice 2 4 2 1\n6 redor 1 5\n7 bad 6\n8 sort bitvec 6\n9 uext 8 4 2\n10 redand 1 9\n11 constraint 10\n";
    assert_eq!(text, expected);
}

#[test]
fn deparse_then_parse_is_stable() {
    let src = "1 sort bitvec 3\n2 sort bitvec 1\n3 input 1 a\n4 state 1 s\n5 one 1\n6 init 1 4 5\n7 add 1 4 3\n8 next 1 4 7\n9 ones 1\n10 eq 2 4 9\n11 bad 10\n12 sort array 1 2\n13 state 12 mem\n14 write 12 13 3 10\n15 next 12 13 14\n16 read 2 13 4\n17 ite 1 16 3 4\n18 ult 2 17 3\n19 constraint -18\n";
    let b1 = parse(src).unwrap();
    let t1 = deparse(&b1);
    let b2 = parse(&t1).unwrap();
    let t2 = deparse(&b2);
    assert_eq!(t1, t2);
    assert_eq!(b1.input.len(), b2.input.len());
    assert_eq!(b1.latch.len(), b2.latch.len());
    assert_eq!(b1.bad.len(), b2.bad.len());
    assert_eq!(b1.constraint.len(), b2.constraint.len());
    assert_eq!(b1.tm.len(), b2.tm.len());
}

#[test]
fn deparse_refuses_a_free_variable() {
    let mut b = parse("1 sort bitvec 1\n2 input 1\n3 bad 2\n").unwrap();
    b.input.clear();
    assert_eq!(Deparser::new().deparse(&b), Err(ErrorKind::UndeclaredReference));
}

#[test]
fn operator_names() {
    assert_eq!(UniOpType::from_name(&chars("redxor")), Some(UniOpType::Redxor));
    assert_eq!(BiOpType::from_name(&chars("usubo")), Some(BiOpType::Usubo));
    assert_eq!(TriOpType::from_name(&chars("ite")), Some(TriOpType::Ite));
    assert_eq!(BiOpType::from_name(&chars("ite")), None);
    assert_eq!(BiOpType::Concat.name(), "concat");
}

#[test]
fn concat_and_read_sorts() {
    let b = parse("1 sort bitvec 2\n2 sort bitvec 3\n3 sort bitvec 5\n4 input 1\n5 input 2\n6 concat 3 4 5\n7 sort array 1 2\n8 state 7\n9 read 2 8 4\n10 sort bitvec 1\n11 redor 10 6\n12 redor 10 9\n13 bad 11\n14 bad 12\n")
        .unwrap();
    assert_eq!(b.bad.len(), 2);
    assert_eq!(b.input.len(), 3);
}

fn part(name: &str, width: u32) -> SignalPart {
    SignalPart { path: vec![name.to_string()], width, offset: 0 }
}

fn witness(inputs: usize, states: usize) -> YosysWitnessBTOR {
    YosysWitnessBTOR {
        version: "Yosys witness BTOR".to_string(),
        generator: "test".to_string(),
        clocks: vec![Clock { path: vec!["clk".to_string()], offset: 0, edge: "posedge".to_string() }],
        inputs: (0..inputs).map(|i| vec![part(&format!("i{i}"), 1)]).collect(),
        states: (0..states).map(|i| vec![part(&format!("s{i}"), 1)]).collect(),
        asserts: vec![],
        assumes: vec![],
    }
}

fn two_inputs_three_latches() -> Btor {
    parse("1 sort bitvec 1\n2 input 1\n3 input 1\n4 state 1\n5 state 1\n6 state 1\n7 next 1 4 2\n8 next 1 5 3\n9 next 1 6 4\n")
        .unwrap()
}

#[test]
fn witness_arity_mismatch() {
    let b = two_inputs_three_latches();
    assert_eq!(b.input.len(), 2);
    assert_eq!(b.latch.len(), 3);
    assert_eq!(b.witness_map(&witness(3, 3)), Err(ErrorKind::WitnessArityMismatch));
    assert_eq!(b.witness_map(&witness(2, 2)), Err(ErrorKind::WitnessArityMismatch));
}

#[test]
fn witness_map_pairs_by_position() {
    let b = two_inputs_three_latches();
    let m = b.witness_map(&witness(2, 3)).unwrap();
    assert_eq!(m.len(), 5);
    assert_eq!(m[0], (b.input[0], vec![part("i0", 1)]));
    assert_eq!(m[1], (b.input[1], vec![part("i1", 1)]));
    assert_eq!(m[2], (b.latch[0], vec![part("s0", 1)]));
    assert_eq!(m[4], (b.latch[2], vec![part("s2", 1)]));
}

#[test]
fn witness_check_counts_properties() {
    let b = two_inputs_three_latches();
    assert!(b.ywb(witness(2, 3)).is_ok());
    let mut w = witness(2, 3);
    w.asserts.push(vec!["p".to_string()]);
    assert_eq!(b.ywb(w).err(), Some(ErrorKind::WitnessArityMismatch));
}

#[test]
fn init_value_must_have_the_state_sort() {
    let e = parse("1 sort bitvec 2\n2 sort array 1 1\n3 state 2\n4 zero 1\n5 init 2 3 4\n6 next 2 3 3\n")
        .err()
        .unwrap();
    assert_eq!(e, ParseError { line: 5, kind: ErrorKind::SortMismatch });
    let e = parse("1 sort bitvec 2\n2 sort bitvec 1\n3 state 1\n4 zero 2\n5 init 1 3 4\n").err().unwrap();
    assert_eq!(e, ParseError { line: 5, kind: ErrorKind::SortMismatch });
}

#[test]
fn unicode_whitespace_separates_tokens() {
    let b = parse("1\u{00a0}sort bitvec\u{2028}1\n2\u{3000}input 1\u{2003}x\n3 bad 2\n").unwrap();
    assert_eq!(b.input.len(), 1);
    assert_eq!(b.symbols[0].1, "x".to_string());
}

#[test]
fn inputs_and_latches_are_distinct() {
    let b = parse("1 sort bitvec 1\n2 input 1\n3 state 1\n4 state 1\n5 next 1 3 4\n").unwrap();
    let all: Vec<Term> = b.input.iter().chain(b.latch.iter()).cloned().collect();
    assert_eq!(all.len(), 3);
    for i in 0..all.len() {
        for j in 0..all.len() {
            if i != j {
                assert_ne!(all[i], all[j]);
            }
        }
    }
}
