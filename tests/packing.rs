use punch_card::{
    eval_strip, punch_card, CapacityMismatch, LengthMismatch, Matrix, PunchCard, PunchCardInner,
    PunchCardLine, Row, SinkKind, StripPair,
};

fn row(text: &str) -> Row {
    Row::new(text.chars().map(|c| c == '1').collect())
}

fn rows_of(texts: &[&str]) -> Vec<Row> {
    texts.iter().map(|t| row(t)).collect()
}

fn uniform_rows(height: usize, length: usize, value: bool) -> Vec<Row> {
    (0..height).map(|_| Row::new(vec![value; length])).collect()
}

const HELLO: [&str; 8] = [
    "00000000000000",
    "11111001111100",
    "01111110111110",
    "00000001010000",
    "10111100101001",
    "01111101101100",
    "00001001110001",
    "01001001100010",
];

#[test]
fn test() {
    let strip = row("11010010");
    let text: String = eval_strip(&strip).into_iter().collect();
    assert_eq!(text, "11010010.");
}

#[test]
fn empty_strip_renders_as_a_dot() {
    let text: String = eval_strip(&Row::new(Vec::new())).into_iter().collect();
    assert_eq!(text, ".");
}

#[test]
fn row_reports_length_and_booleans() {
    let r = row("101");
    assert_eq!(r.length(), 3);
    assert!(r.at(0));
    assert!(!r.at(1));
    assert!(r.at(2));
    assert_eq!(r.len(4), 7);
}

#[test]
fn strip_eval_marks_only_true_positions() {
    let r = row("101");
    let mut out = vec![0x01u8, 0x02, 0x04, 0x08, 0x10];
    r.eval(&mut out, 1, 0x80);
    assert_eq!(out, vec![0x01, 0x82, 0x04, 0x88, 0x10]);
}

#[test]
fn empty_strip_eval_marks_nothing_at_any_index() {
    let r = Row::new(Vec::new());
    let mut out = vec![0x01u8, 0x02];
    r.eval(&mut out, 7, 0xFF);
    assert_eq!(out, vec![0x01, 0x02]);
    assert_eq!(r.len(5), 5);
}

#[test]
fn pack_returns_one_word_per_column_for_every_height() {
    let m = Matrix::<bool>::new(uniform_rows(1, 5, true)).unwrap();
    assert_eq!(m.punch_card().len(), 5);
    let m = Matrix::<u8>::new(uniform_rows(8, 4, false)).unwrap();
    assert_eq!(m.punch_card().len(), 4);
    let m = Matrix::<u16>::new(uniform_rows(16, 3, true)).unwrap();
    assert_eq!(m.punch_card(), vec![0xFFFFu16; 3]);
    let m = Matrix::<u32>::new(uniform_rows(32, 2, true)).unwrap();
    assert_eq!(m.punch_card(), vec![u32::MAX; 2]);
    let m = Matrix::<u64>::new(uniform_rows(64, 1, true)).unwrap();
    assert_eq!(m.punch_card(), vec![u64::MAX]);
    let m = Matrix::<u128>::new(uniform_rows(128, 2, true)).unwrap();
    assert_eq!(m.punch_card(), vec![u128::MAX; 2]);
}

#[test]
fn empty_rows_pack_into_nothing() {
    let m = Matrix::<u8>::new(uniform_rows(8, 0, false)).unwrap();
    assert_eq!(m.length(), 0);
    assert_eq!(m.punch_card(), Vec::<u8>::new());
    assert_eq!(m.pack(SinkKind::Fixed(0)), Ok(Vec::new()));
}

#[test]
fn heights_of_the_words() {
    assert_eq!(bool::height(), 1);
    assert_eq!(u8::height(), 8);
    assert_eq!(u16::height(), 16);
    assert_eq!(u32::height(), 32);
    assert_eq!(u64::height(), 64);
    assert_eq!(u128::height(), 128);
    assert_eq!(u8::zero(), 0);
    assert!(!bool::zero());
}

#[test]
fn bit_h_of_a_word_is_row_h() {
    let mut texts = ["00"; 16];
    texts[0] = "10";
    texts[3] = "11";
    texts[15] = "01";
    let m = Matrix::<u16>::new(rows_of(&texts)).unwrap();
    let out = m.punch_card();
    assert_eq!(out, vec![0x9000u16, 0x1001]);
    for c in 0..2 {
        for h in 0..16 {
            let bit = (out[c] >> (15 - h)) & 1 == 1;
            assert_eq!(bit, texts[h].as_bytes()[c] == b'1');
        }
    }
}

#[test]
fn first_row_is_the_most_significant_bit() {
    let mut rows = uniform_rows(32, 1, false);
    rows[0] = row("1");
    let m = Matrix::<u32>::new(rows).unwrap();
    assert_eq!(m.punch_card(), vec![0x8000_0000u32]);
    let mut rows = uniform_rows(128, 1, false);
    rows[127] = row("1");
    let m = Matrix::<u128>::new(rows).unwrap();
    assert_eq!(m.punch_card(), vec![1u128]);
}

#[test]
fn single_row_packs_into_its_booleans() {
    let m = Matrix::<bool>::new(vec![row("1101001")]).unwrap();
    assert_eq!(m.punch_card(), vec![true, true, false, true, false, false, true]);
    assert_eq!(m.pack(SinkKind::Fixed(7)), Ok(vec![true, true, false, true, false, false, true]));
}

#[test]
fn mismatched_lengths_are_reported() {
    let mut rows = uniform_rows(8, 3, false);
    rows[1] = Row::new(vec![false; 4]);
    let r = Matrix::<u8>::new(rows);
    assert_eq!(r.err(), Some(LengthMismatch { expected: 3, row_index: 1, actual: 4 }));
}

#[test]
fn first_mismatching_row_is_reported() {
    let mut rows = uniform_rows(8, 3, true);
    rows[5] = Row::new(vec![true; 2]);
    rows[7] = Row::new(vec![true; 4]);
    let r = Matrix::<u8>::new(rows);
    assert_eq!(r.err(), Some(LengthMismatch { expected: 3, row_index: 5, actual: 2 }));
}

#[test]
fn all_false_and_all_true() {
    let m = Matrix::<u8>::new(uniform_rows(8, 3, false)).unwrap();
    assert_eq!(m.punch_card(), vec![0x00u8, 0x00, 0x00]);
    let m = Matrix::<u8>::new(uniform_rows(8, 1, true)).unwrap();
    assert_eq!(m.punch_card(), vec![0xFFu8]);
}

#[test]
fn first_row_false_rest_true() {
    let mut rows = uniform_rows(8, 1, true);
    rows[0] = row("0");
    let m = Matrix::<u8>::new(rows).unwrap();
    assert_eq!(m.punch_card(), vec![0x7Fu8]);
}

#[test]
fn fixed_capacity_must_match_length() {
    let m = Matrix::<u8>::new(rows_of(&HELLO)).unwrap();
    assert_eq!(m.length(), 14);
    assert_eq!(
        m.pack(SinkKind::Fixed(13)),
        Err(CapacityMismatch { expected: 14, provided: 13 })
    );
    assert_eq!(
        m.pack(SinkKind::Fixed(15)),
        Err(CapacityMismatch { expected: 14, provided: 15 })
    );
    let growable = m.pack(SinkKind::Growable).unwrap();
    let fixed = m.pack(SinkKind::Fixed(14)).unwrap();
    assert_eq!(growable, fixed);
    assert_eq!(growable, m.punch_card());
}

#[test]
fn card_spells_text() {
    let m = Matrix::<u8>::new(rows_of(&HELLO)).unwrap();
    assert_eq!(m.height(), 8);
    assert_eq!(m.punch_card(), b"Hello, World!\n".to_vec());
}

#[test]
fn eight_strips_spell_text() {
    let r = rows_of(&HELLO);
    let mut it = r.into_iter();
    let mut next = || it.next().unwrap();
    let out = punch_card(next(), next(), next(), next(), next(), next(), next(), next());
    assert_eq!(out, Ok(b"Hello, World!\n".to_vec()));
}

#[test]
fn eight_strips_report_first_mismatch() {
    let mut r = rows_of(&HELLO);
    r[6] = row("0101");
    r[7] = row("01");
    let mut it = r.into_iter();
    let mut next = || it.next().unwrap();
    let out = punch_card(next(), next(), next(), next(), next(), next(), next(), next());
    assert_eq!(out, Err(LengthMismatch { expected: 14, row_index: 6, actual: 4 }));
}

#[test]
fn eight_strips_first_false_rest_true() {
    let t = || row("1");
    let out = punch_card(row("0"), t(), t(), t(), t(), t(), t(), t());
    assert_eq!(out, Ok(vec![0x7F]));
}
