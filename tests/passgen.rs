use keystore::passgen::{
    common_password, contains_str, score, shuffle, Distribution, Freq, Frequency, Generator, A,
};

fn distribution(s: &str) -> Distribution {
    let f: Frequency = String::from(s).into();
    f.into()
}

#[test]
fn lib_contains_literal_password() {
    let a = common_password("chbwsukberi2bv2eivbwwbviobvbwvb2chbuvowecu2u2bf2buekvcbewuvpasswordvwehgkcjgf2ivwijkwhcwvkvwgjkwfw");
    assert!(a);
    let b = common_password("chbwsukberi2bv2eivbwwbviobvbwvb2chbuvowecu2u2bf2buekvcbewuvwehgkcjgf2ivwijkwhcwvkvwgjkwfw");
    assert!(!b);
}

#[test]
fn gen_contains_literal_password() {
    let a = common_password("chbwsukberi2bv2eivbwwbviobvbwvb2chbuvowecu2u2bf2buekvcbewuvpasswordvwehgkcjgf2ivwijkwhcwvkvwgjkwfw");
    assert!(a);
    let b = common_password("chbwsukberi2bv2eivbwwbviobvbwvb2chbuvowecu2u2bf2buekvcbewuvwehgkcjgf2ivwijkwhcwvkvwgjkwfw");
    assert!(!b);
}

fn freq_cases() {
    let s = String::from("abcabc");
    let f: Frequency = s.into();
    let d: Distribution = f.into();
    assert!(d.all.total == d.lower.total);
    assert!(d.all.uneeq == d.lower.uneeq);
    assert!(d.all.total == 6usize);
    assert!(d.all.uneeq == 3usize);
    assert!(d.upper.total == 0usize);
    assert!(d.number.total == 0usize);
    assert!(d.symbol.total == 0usize);
    let s2 = String::from("abc123");
    let f2: Frequency = s2.into();
    let d2: Distribution = f2.into();
    let d21 = d2.lower.total + d2.number.total;
    let d22 = d2.lower.uneeq + d2.number.uneeq;
    assert!(d2.all.total == d21);
    assert!(d2.all.uneeq == d22);
    assert!(d2.all.total == 6usize);
    assert!(d2.all.uneeq == 6usize);
    assert!(d2.lower.total == 3usize);
    assert!(d2.number.total == 3usize);
    assert!(d2.upper.total == 0usize);
    assert!(d2.symbol.total == 0usize);
    let s3 = String::from("abc123XYZ");
    let f3: Frequency = s3.into();
    let d3: Distribution = f3.into();
    let d31 = d3.lower.total + d3.number.total + d3.upper.total;
    let d32 = d3.lower.uneeq + d3.number.uneeq + d3.upper.uneeq;
    assert!(d3.all.total == d31);
    assert!(d3.all.uneeq == d32);
    assert!(d3.all.total == 9usize);
    assert!(d3.all.uneeq == 9usize);
    assert!(d3.lower.total == 3usize);
    assert!(d3.upper.total == 3usize);
    assert!(d3.number.total == 3usize);
    assert!(d3.symbol.total == 0usize);
    let s4 = String::from("abc123XYZ $!");
    let f4: Frequency = s4.into();
    let d4: Distribution = f4.into();
    let d41 = d4.lower.total + d4.number.total + d4.upper.total + d4.symbol.total;
    let d42 = d4.lower.uneeq + d4.number.uneeq + d4.upper.uneeq + d4.symbol.uneeq;
    assert!(d4.all.total == d41);
    assert!(d4.all.uneeq == d42);
    assert!(d4.all.total == 12usize);
    assert!(d4.all.uneeq == 12usize);
    assert!(d4.lower.total == 3usize);
    assert!(d4.upper.total == 3usize);
    assert!(d4.number.total == 3usize);
    assert!(d4.symbol.total == 3usize);
}

#[test]
fn lib_freq_check() {
    freq_cases();
}

#[test]
fn gen_freq_check() {
    freq_cases();
}

fn score_cases() {
    let a = score("chbwsukberi2bv2eivbwwbviobvbwvb2chbuvowecu2u2bf2buekvcbewuvpasswordvwehgkcjgf2ivwijkwh cwvkvwgjkwfw".to_string());
    assert!(a == 0u8);
    let b = score("chbwsukb".to_string());
    assert!(b == 10u8);
    let c = score("chbwsukberi2bv2eivbwwbviobvbwvb2chbuvowecu2u2bf2buekvcbewuvwehgkcjgf2ivwijkwh cwvkvwgjkwfw".to_string());
    assert!(c == 20u8);
    let d = score("chbwsukber2bV3884shdhhjdshjdbjcjhDGGDGD".to_string());
    assert!(d == 30u8);
    let e = score("chbwsukber2bV$".to_string());
    assert!(e == 40u8);
    let f = score("chbwsukber2bV$s".to_string());
    assert!(f == 50u8);
    // an example of a bad password with the highest rating (points to limitations of the score function)
    let g = score("ssssssssss5sS$s".to_string());
    assert!(g == 50u8);
}

#[test]
fn lib_score_check() {
    score_cases();
    let a0 = score("wxyz".to_string());
    assert!(a0 == 5u8);
}

#[test]
fn gen_score_check() {
    score_cases();
}

#[test]
fn score_of_each_common_password() {
    for p in ["xpasswordx", "123456789", "qwertyuio", "asdfghjk", "zxcvbnm"] {
        assert_eq!(score(p.to_string()), 0);
    }
    assert_eq!(score(String::new()), 5);
}

#[test]
fn score_counts_bytes_for_the_shortest_tier() {
    // three two-byte characters are six bytes: past the shortest tier
    assert_eq!(score("\u{e9}\u{e9}\u{e9}".to_string()), 10);
    assert_eq!(score("\u{e9}\u{e9}".to_string()), 5);
}

#[test]
fn eight_lowercase_letters_score_ten() {
    assert_eq!(score("abcdefgh".to_string()), 10);
}

#[test]
fn unclassified_characters_are_not_counted() {
    let d = distribution("abc\u{e9}\u{e9}\u{e9}\u{e9}\u{e9}\u{e9}\u{e9}");
    assert_eq!(d.all.total, 3);
    assert_eq!(d.lower.uneeq, 3);
}

#[test]
fn frequency_keeps_characters_in_order() {
    let f: Frequency = String::from("b!a b").into();
    assert_eq!(f.lower.1, vec!['b', 'a', 'b']);
    assert_eq!(f.lower.0, 2);
    assert_eq!(f.symbol.1, vec!['!', ' ']);
    assert_eq!(f.symbol.0, 2);
    assert_eq!(f.upper.0, 0);
}

#[test]
fn frequency_add_counts_new_characters_once() {
    let mut f = Frequency::new();
    f.add('Q');
    f.add('Q');
    f.add('7');
    f.add('\u{e9}');
    assert_eq!(f.upper.0, 1);
    assert_eq!(f.upper.1.len(), 2);
    assert_eq!(f.number.0, 1);
    assert_eq!(f.lower.1.len() + f.symbol.1.len(), 0);
}

#[test]
fn freq_new_holds_its_fields() {
    let f = Freq::new(7, 3);
    assert_eq!((f.total, f.uneeq), (7, 3));
}

#[test]
fn substring_search() {
    assert!(contains_str("hello", ""));
    assert!(contains_str("hello", "llo"));
    assert!(!contains_str("hello", "hello!"));
    assert!(!contains_str("", "a"));
}

#[test]
fn passgen_behaves() {
    // 4 fails because not enough entropy
    let cx = Generator::simple(5usize);
    assert!(cx.len() == 5usize);
    assert!(score(cx) == 10);
    let dx = Generator::standard(5usize);
    assert!(dx.len() == 5usize);
    assert!(score(dx) == 10);
    let ax = Generator::simple(53usize);
    assert!(ax.len() == 53usize);
    assert!(score(ax) == 30);
    let bx = Generator::standard(96usize);
    assert!(bx.len() == 96usize);
    assert!(score(bx) == 50);
}

#[test]
fn lossless_shuffle() {
    let xa = "abcdefghijklmnopqrstuvwxyz";
    let xb = shuffle(xa);
    for xc in xa.chars() {
        assert!(xb.contains(xc));
    }
    assert!(xb.len() == xa.len());
    let xd = "ABCDEFGHIJKLMNOPQRSTUVWXYZ";
    let xe = shuffle(xd);
    for xf in xd.chars() {
        assert!(xe.contains(xf));
    }
    assert!(xd.len() == xe.len());
    let xg = "0123456789";
    let xh = shuffle(xg);
    for xi in xg.chars() {
        assert!(xh.contains(xi));
    }
    assert!(xg.len() == xh.len());
    let xj = " !\"#$%&'()*+,-./:;<=>?@[\\]^_`{|}~";
    let xk = shuffle(xj);
    for xl in xj.chars() {
        assert!(xk.contains(xl));
    }
    assert!(xj.len() == xk.len());
}

#[test]
fn generated_passwords_use_the_alphabets() {
    for _ in 0..20 {
        let s = Generator::simple(8);
        assert_eq!(s.chars().count(), 8);
        assert!(s.chars().all(|c| A::LOWER.contains(c) || A::UPPER.contains(c) || A::NUMBERS.contains(c)));
        assert!(s.chars().any(|c| A::LOWER.contains(c)));
        assert!(s.chars().any(|c| A::UPPER.contains(c)));
        assert!(s.chars().any(|c| A::NUMBERS.contains(c)));
        let t = Generator::standard(8);
        assert_eq!(t.chars().count(), 8);
        assert!(t.chars().any(|c| A::SYMBOLS.contains(c)));
        assert!(t.chars().all(|c| A::LOWER.contains(c)
            || A::UPPER.contains(c)
            || A::NUMBERS.contains(c)
            || A::SYMBOLS.contains(c)));
    }
}

#[test]
fn shuffle_keeps_multibyte_characters() {
    let s = shuffle("\u{e9}a\u{e9}");
    let mut chars: Vec<char> = s.chars().collect();
    chars.sort();
    assert_eq!(chars, vec!['a', '\u{e9}', '\u{e9}']);
}
