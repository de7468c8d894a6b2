use explora::screenshot::{numbered_path, ppm};
use explora::shader_cache::{is_current, record};
use explora::text::{
    chars_of, parse_chars, parse_list, parse_u32, parse_u64, push_decimal, push_signed,
    push_tenths, push_thousandths, push_truth, same_text,
};

fn rendered(f: impl Fn(&mut String)) -> String {
    let mut s = String::from("<");
    f(&mut s);
    s
}

#[test]
fn numbers_are_rendered() {
    assert_eq!(rendered(|s| push_decimal(s, 0)), "<0");
    assert_eq!(rendered(|s| push_decimal(s, 1234567890)), "<1234567890");
    assert_eq!(rendered(|s| push_decimal(s, u128::MAX)), format!("<{}", u128::MAX));
    assert_eq!(rendered(|s| push_signed(s, -42)), "<-42");
    assert_eq!(rendered(|s| push_signed(s, i64::MIN)), format!("<{}", i64::MIN));
    assert_eq!(rendered(|s| push_thousandths(s, 1234)), "<1.234");
    assert_eq!(rendered(|s| push_thousandths(s, 5)), "<0.005");
    assert_eq!(rendered(|s| push_tenths(s, 105)), "<10.5");
    assert_eq!(rendered(|s| push_truth(s, true)), "<true");
    assert_eq!(rendered(|s| push_truth(s, false)), "<false");
}

#[test]
fn numbers_are_parsed_as_std_parses_them() {
    for text in [
        "", "0", "+7", "-7", "007", "12x", " 1", "18446744073709551615", "18446744073709551616",
        "4294967295", "4294967296", "+", "1_0", "\u{661}",
    ] {
        assert_eq!(parse_u64(text), text.parse::<u64>().ok(), "{text}");
        assert_eq!(parse_u32(text), text.parse::<u32>().ok(), "{text}");
    }
    assert_eq!(parse_chars(&chars_of("ab120cd"), 2, 5, 120), Some(120));
    assert_eq!(parse_chars(&chars_of("ab120cd"), 2, 5, 119), None);
}

#[test]
fn parsing_undoes_rendering() {
    for n in [0u64, 9, 10, 99, 1_000_000_007, u64::MAX] {
        let mut s = String::new();
        push_decimal(&mut s, n as u128);
        assert_eq!(parse_u64(&s), Some(n));
    }
}

#[test]
fn lists_skip_what_is_no_number() {
    assert_eq!(parse_list("1,2, 3 ,x,,5"), vec![1, 2, 3, 5]);
    assert_eq!(parse_list("\t8\u{a0}, 9"), vec![8, 9]);
    assert!(same_text("abc", "abc"));
    assert!(!same_text("abc", "abd"));
    assert!(!same_text("abc", "ab"));
}

#[test]
fn screenshots_are_numbered_before_the_extension() {
    assert_eq!(numbered_path("shot.ppm", 120), "shot-120.ppm");
    assert_eq!(numbered_path("a.b/shot", 7), "a-7.b/shot");
    assert_eq!(numbered_path("shot", 7), "shot-7");
    assert_eq!(numbered_path("a.tar.ppm", 0), "a.tar-0.ppm");
}

#[test]
fn screenshots_swap_red_and_blue() {
    let pixels = vec![1, 2, 3, 4, 5, 6, 7, 8];
    let mut expected = b"P6\n2 1\n255\n".to_vec();
    expected.extend_from_slice(&[3, 2, 1, 7, 6, 5]);
    assert_eq!(ppm(2, 1, &pixels), expected);
    assert_eq!(ppm(0, 0, &vec![]), b"P6\n0 0\n255\n".to_vec());
}

#[test]
fn only_reuses_existing_output_with_identical_effective_source() {
    let source = "compiler recipe\n#define SHADOW_RAYS 2\nvoid main() {}";
    assert!(!is_current(false, None, source));
    assert!(!is_current(true, None, source), "legacy timestamp-only artifacts must rebuild");
    let recorded = record(source);
    assert!(is_current(true, Some(&recorded), source));
    assert!(!is_current(true, Some(&recorded), &source.replace("RAYS 2", "RAYS 8")));
    assert!(!is_current(
        true,
        Some(&recorded),
        &source.replace("compiler recipe", "new compiler options")
    ));
    assert!(!is_current(false, Some(&recorded), source));
}
