use pdf_launcher::prog::{resolve_all, step, CliProg};
use pdf_launcher::token::parse_prog;

#[test]
fn test_cliprog_single() {
    let prog = CliProg::Single(123);
    let items: Vec<u32> = prog.into_iter();
    assert_eq!(items, vec![123]);
}

#[test]
fn test_cliprog_range() {
    let prog = CliProg::Range(5, 8);
    let items: Vec<u32> = prog.into_iter();
    assert_eq!(items, vec![5, 6, 7, 8]);
}

#[test]
fn test_cliprog_fix_len_single_no_prev() {
    let prog = CliProg::Single(123);
    let fixed = prog.fix_len(None);
    assert_eq!(fixed, CliProg::Single(123));
}

#[test]
fn test_cliprog_fix_len_single_with_prev() {
    let prog = CliProg::Single(23);
    let fixed = prog.fix_len(Some(1234));
    assert_eq!(fixed, CliProg::Single(1223));
}

#[test]
fn test_cliprog_fix_len_range_no_prev() {
    let prog = CliProg::Range(5, 8);
    let fixed = prog.fix_len(None);
    assert_eq!(fixed, CliProg::Range(5, 8));
}

#[test]
fn test_cliprog_fix_len_range_with_prev() {
    let prog = CliProg::Range(23, 25);
    let fixed = prog.fix_len(Some(1234));
    assert_eq!(fixed, CliProg::Range(1223, 1225));
}

#[test]
fn range_end_is_fixed_against_the_fixed_start() {
    assert_eq!(CliProg::Range(1, 5).fix_len(Some(1234)), CliProg::Range(1231, 1235));
    assert_eq!(CliProg::Range(98, 2).fix_len(Some(1234)), CliProg::Range(1298, 1292));
    assert_eq!(CliProg::Range(12345, 7).fix_len(Some(99)), CliProg::Range(12345, 12347));
}

#[test]
fn range_of_one_value() {
    assert_eq!(CliProg::Range(7, 7).into_iter(), vec![7]);
    assert_eq!(CliProg::Range(7, 7).last(), Some(7));
}

#[test]
fn range_below_its_start_is_empty() {
    assert_eq!(CliProg::Range(8, 5).into_iter(), Vec::<u32>::new());
    assert_eq!(CliProg::Range(8, 5).last(), None);
}

#[test]
fn range_up_to_the_largest_value() {
    assert_eq!(
        CliProg::Range(u32::MAX - 2, u32::MAX).into_iter(),
        vec![u32::MAX - 2, u32::MAX - 1, u32::MAX]
    );
    assert_eq!(CliProg::Range(0, 2).into_iter(), vec![0, 1, 2]);
}

#[test]
fn last_is_the_last_of_the_expansion() {
    for prog in [CliProg::Single(4), CliProg::Range(5, 8), CliProg::Range(9, 3)] {
        assert_eq!(prog.last(), prog.into_iter().last().copied());
    }
}

#[test]
fn checked_fix_len_of_a_prog() {
    assert_eq!(CliProg::Single(23).checked_fix_len(Some(1234)), Some(CliProg::Single(1223)));
    assert_eq!(CliProg::Single(23).checked_fix_len(None), Some(CliProg::Single(23)));
    assert_eq!(CliProg::Single(999_999_999).checked_fix_len(Some(u32::MAX)), None);
    assert_eq!(CliProg::Range(1, 999_999_999).checked_fix_len(Some(u32::MAX)), None);
    assert_eq!(CliProg::Range(999_999_999, 1).checked_fix_len(Some(u32::MAX)), None);
}

#[test]
fn carry_runs_across_tokens() {
    let progs = vec![parse_prog("1234").unwrap(), parse_prog("23-25").unwrap()];
    assert_eq!(resolve_all(&progs), Some(vec![1234, 1223, 1224, 1225]));
}

#[test]
fn carry_is_the_last_identifier_emitted() {
    let progs = vec![CliProg::Single(1234), CliProg::Range(1, 3), CliProg::Single(9)];
    assert_eq!(resolve_all(&progs), Some(vec![1234, 1231, 1232, 1233, 1239]));
    let progs = vec![CliProg::Single(123), CliProg::Single(45), CliProg::Single(6)];
    assert_eq!(resolve_all(&progs), Some(vec![123, 145, 146]));
}

#[test]
fn first_token_passes_unchanged() {
    assert_eq!(resolve_all(&vec![CliProg::Single(7)]), Some(vec![7]));
    assert_eq!(resolve_all(&vec![CliProg::Range(5, 8)]), Some(vec![5, 6, 7, 8]));
    assert_eq!(resolve_all(&Vec::new()), Some(Vec::new()));
}

#[test]
fn empty_range_leaves_no_carry() {
    let progs = vec![CliProg::Single(1234), CliProg::Range(8, 5), CliProg::Single(7)];
    assert_eq!(resolve_all(&progs), Some(vec![1234, 7]));
}

#[test]
fn resolve_all_reports_overflow() {
    let progs = vec![CliProg::Single(u32::MAX), CliProg::Single(999_999_999)];
    assert_eq!(resolve_all(&progs), None);
}

#[test]
fn step_emits_and_hands_on_the_carry() {
    assert_eq!(step(&CliProg::Single(1234), None), Some((vec![1234], Some(1234))));
    assert_eq!(
        step(&CliProg::Range(23, 25), Some(1234)),
        Some((vec![1223, 1224, 1225], Some(1225)))
    );
    assert_eq!(step(&CliProg::Range(8, 5), None), Some((Vec::new(), None)));
    assert_eq!(step(&CliProg::Single(999_999_999), Some(u32::MAX)), None);
}
