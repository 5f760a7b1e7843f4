use gasleak::aws::cloudwatch::Ascending;
use gasleak::double::Double;
use gasleak::order::stable_sort;
use gasleak::table::{count_bytes, pad};
use gasleak::text::{
    blank, contains, join, join_slices, lowercase, magnitude, same, signed, starts_with, trim,
    unsigned,
};

#[test]
fn white_space_is_that_of_the_standard_library() {
    for n in 0..0x11_0000u32 {
        if let Some(c) = char::from_u32(n) {
            if c.is_whitespace() || n < 0x4000 {
                let around = format!("{c}x{c}y{c}");
                assert_eq!(trim(&around), around.trim(), "{n:x}");
                let alone = c.to_string();
                assert_eq!(blank(&alone), alone.trim().is_empty(), "{n:x}");
            }
        }
    }
    assert_eq!(trim(""), "");
    assert_eq!(trim(" \n "), "");
}

#[test]
fn lowercase_is_ascii_only() {
    assert_eq!(lowercase("AbZ[É"), "abz[É");
    for n in 0..0x300u32 {
        let c = char::from_u32(n).unwrap();
        assert_eq!(lowercase(&c.to_string()), c.to_string().to_ascii_lowercase());
    }
}

#[test]
fn searches_match_the_standard_library() {
    let texts = ["", "a", "ab", "aab", "aaab", "é", "éa", "abab", "b"];
    for t in texts {
        for p in texts {
            assert_eq!(contains(t, p), t.contains(p), "{t} {p}");
            assert_eq!(starts_with(t, p), t.starts_with(p), "{t} {p}");
            assert_eq!(same(t, p), t == p);
        }
    }
}

#[test]
fn numbers_have_their_usual_text() {
    for n in [0i64, 1, -1, 10, -987, i64::MAX, i64::MIN] {
        assert_eq!(signed(n), n.to_string());
        assert_eq!(magnitude(n), n.unsigned_abs());
    }
    assert_eq!(unsigned(u64::MAX), u64::MAX.to_string());
}

#[test]
fn texts_are_joined_with_what_stands_between() {
    let list: Vec<String> = vec!["a".into(), "".into(), "b".into()];
    assert_eq!(join(&list, "; "), "a; ; b");
    assert_eq!(join(&vec![], "; "), "");
    assert_eq!(join_slices(&["a", "b"], ", "), "a, b");
}

#[test]
fn padding_counts_characters_and_columns_count_bytes() {
    assert_eq!(pad("é", 3), format!("{:<3}", "é"));
    assert_eq!(pad("long", 2), "long");
    assert_eq!(count_bytes("aé…🚨"), 10);
}

#[test]
fn sorting_keeps_equals_in_order() {
    let mut seed: u32 = 7;
    let mut list: Vec<f64> = vec![0.0, -0.0, 0.0, -0.0];
    for _ in 0..200 {
        seed = seed.wrapping_mul(1_664_525).wrapping_add(1_013_904_223);
        list.push(f64::from(seed >> 28) - 7.0);
    }
    let mut want = list.clone();
    want.sort_by(|a, b| a.partial_cmp(b).unwrap());
    let doubles: Vec<Double> = list.iter().map(|x| Double { bits: x.to_bits() }).collect();
    let got: Vec<u64> =
        stable_sort::<Double, Ascending>(doubles).iter().map(|d| d.bits).collect();
    assert_eq!(got, want.iter().map(|x| x.to_bits()).collect::<Vec<u64>>());
}
