//! Password strength scoring and password generation.
use vstd::prelude::*;

verus! {

/// True when `needle` occurs in `hay` as a contiguous run.
pub open spec fn has_sub(hay: Seq<char>, needle: Seq<char>) -> bool {
    exists|i: int|
        0 <= i && i + needle.len() <= hay.len() && #[trigger] hay.subrange(i, i + needle.len())
            == needle
}

/// True when `needle` occurs in `hay` at character position `i`.
fn matches_at(hay: &str, needle: &str, i: usize, n: usize, m: usize) -> (r: bool)
    requires
        n == hay@.len(),
        m == needle@.len(),
        i + m <= n,
    ensures
        r == (hay@.subrange(i as int, i + m) == needle@),
{
    let mut j: usize = 0;
    while j < m
        invariant
            n == hay@.len(),
            m == needle@.len(),
            i + m <= n,
            j <= m,
            forall|t: int| 0 <= t < j ==> hay@[i + t] == needle@[t],
        decreases m - j,
    {
        if hay.get_char(i + j) != needle.get_char(j) {
            assert(hay@.subrange(i as int, i + m)[j as int] != needle@[j as int]);
            return false;
        }
        j += 1;
    }
    assert(hay@.subrange(i as int, i + m) =~= needle@);
    true
}

/// Substring search over characters.
pub fn contains_str(hay: &str, needle: &str) -> (r: bool)
    ensures
        r == has_sub(hay@, needle@),
{
    let n = hay.unicode_len();
    let m = needle.unicode_len();
    if m == 0 {
        assert(hay@.subrange(0, 0int + needle@.len()) =~= needle@);
        return true;
    }
    if m > n {
        return false;
    }
    let mut i: usize = 0;
    while i <= n - m
        invariant
            n == hay@.len(),
            m == needle@.len(),
            0 < m <= n,
            i <= n - m + 1,
            forall|k: int| 0 <= k < i ==> #[trigger] hay@.subrange(k, k + m) != needle@,
        decreases n - m + 1 - i,
    {
        if matches_at(hay, needle, i, n, m) {
            return true;
        }
        i += 1;
    }
    false
}

/// The passwords that every guessing list starts with.
pub open spec fn is_common(s: Seq<char>) -> bool {
    ||| has_sub(s, "password"@)
    ||| has_sub(s, "123456789"@)
    ||| has_sub(s, "qwertyuio"@)
    ||| has_sub(s, "asdfghjk"@)
    ||| has_sub(s, "zxcvbnm"@)
}

/// Matches or contains common passwords
pub fn common_password(s: &str) -> (r: bool)
    ensures
        r == is_common(s@),
{
    contains_str(s, "password") || contains_str(s, "123456789") || contains_str(s, "qwertyuio")
        || contains_str(s, "asdfghjk") || contains_str(s, "zxcvbnm")
}

/// The four character alphabets that passwords are drawn from and scored on.
pub struct A;

impl A {
    pub const LOWER: &'static str = "abcdefghijklmnopqrstuvwxyz";
    pub const UPPER: &'static str = "ABCDEFGHIJKLMNOPQRSTUVWXYZ";
    pub const NUMBERS: &'static str = "0123456789";
    // space is a symbol (it may need to be taken out to generate passwords for some forms)
    pub const SYMBOLS: &'static str = " !\"#$%&'()*+,-./:;<=>?@[\\]^_`{|}~";
}

pub open spec fn is_lower(c: char) -> bool {
    'a' <= c && c <= 'z'
}

pub open spec fn is_upper(c: char) -> bool {
    'A' <= c && c <= 'Z'
}

pub open spec fn is_number(c: char) -> bool {
    '0' <= c && c <= '9'
}

/// Printable ASCII that is neither a letter nor a digit, space included.
pub open spec fn is_symbol(c: char) -> bool {
    ||| ' ' <= c && c <= '/'
    ||| ':' <= c && c <= '@'
    ||| '[' <= c && c <= '`'
    ||| '{' <= c && c <= '~'
}

pub open spec fn lowers(s: Seq<char>) -> Seq<char> {
    s.filter(|c: char| is_lower(c))
}

pub open spec fn uppers(s: Seq<char>) -> Seq<char> {
    s.filter(|c: char| is_upper(c))
}

pub open spec fn numbers(s: Seq<char>) -> Seq<char> {
    s.filter(|c: char| is_number(c))
}

pub open spec fn symbols(s: Seq<char>) -> Seq<char> {
    s.filter(|c: char| is_symbol(c))
}

/// Number of distinct characters in `s`.
pub open spec fn distinct_count(s: Seq<char>) -> nat
    decreases s.len(),
{
    if s.len() == 0 {
        0
    } else {
        let init = s.drop_last();
        distinct_count(init) + if init.contains(s.last()) {
            0nat
        } else {
            1nat
        }
    }
}

proof fn lemma_distinct_count_bound(s: Seq<char>)
    ensures
        distinct_count(s) <= s.len(),
    decreases s.len(),
{
    if s.len() > 0 {
        lemma_distinct_count_bound(s.drop_last());
    }
}

/// How one class's tally moves when `c` is added: `hit` says whether `c` is in the class.
pub open spec fn counted(before: (usize, Seq<char>), after: (usize, Seq<char>), c: char, hit: bool) -> bool {
    if hit {
        &&& after.1 == before.1.push(c)
        &&& after.0 == before.0 + if before.1.contains(c) {
            0int
        } else {
            1int
        }
    } else {
        after == before
    }
}

/// Per class: how many distinct characters were seen, and every character seen, in order.
pub struct Frequency {
    pub lower: (usize, Vec<char>),
    pub upper: (usize, Vec<char>),
    pub number: (usize, Vec<char>),
    pub symbol: (usize, Vec<char>),
}

pub open spec fn tally_of(t: (usize, Vec<char>)) -> (usize, Seq<char>) {
    (t.0, t.1@)
}

pub open spec fn tallies(t: (usize, Vec<char>), picked: Seq<char>) -> bool {
    t.1@ == picked && t.0 == distinct_count(picked)
}

impl Frequency {
    /// This tally is exactly the one of the text `s`.
    pub open spec fn of(&self, s: Seq<char>) -> bool {
        &&& tallies(self.lower, lowers(s))
        &&& tallies(self.upper, uppers(s))
        &&& tallies(self.number, numbers(s))
        &&& tallies(self.symbol, symbols(s))
    }

    pub fn new() -> (r: Frequency)
        ensures
            r.of(Seq::empty()),
    {
        let r = Frequency {
            lower: (0usize, Vec::new()),
            upper: (0usize, Vec::new()),
            number: (0usize, Vec::new()),
            symbol: (0usize, Vec::new()),
        };
        assert(lowers(Seq::empty()) =~= Seq::empty());
        assert(uppers(Seq::empty()) =~= Seq::empty());
        assert(numbers(Seq::empty()) =~= Seq::empty());
        assert(symbols(Seq::empty()) =~= Seq::empty());
        r
    }

    pub fn add(&mut self, c: char)
        requires
            old(self).lower.0 < usize::MAX,
            old(self).upper.0 < usize::MAX,
            old(self).number.0 < usize::MAX,
            old(self).symbol.0 < usize::MAX,
        ensures
            counted(tally_of(old(self).lower), tally_of(final(self).lower), c, is_lower(c)),
            counted(tally_of(old(self).upper), tally_of(final(self).upper), c, is_upper(c)),
            counted(tally_of(old(self).number), tally_of(final(self).number), c, is_number(c)),
            counted(tally_of(old(self).symbol), tally_of(final(self).symbol), c, is_symbol(c)),
    {
        if 'a' <= c && c <= 'z' {
            if !seen(&self.lower.1, c) {
                self.lower.0 += 1usize;
            }
            self.lower.1.push(c);
        } else if 'A' <= c && c <= 'Z' {
            if !seen(&self.upper.1, c) {
                self.upper.0 += 1usize;
            }
            self.upper.1.push(c);
        } else if '0' <= c && c <= '9' {
            if !seen(&self.number.1, c) {
                self.number.0 += 1usize;
            }
            self.number.1.push(c);
        } else if (' ' <= c && c <= '/') || (':' <= c && c <= '@') || ('[' <= c && c <= '`') || (
        '{' <= c && c <= '~') {
            if !seen(&self.symbol.1, c) {
                self.symbol.0 += 1usize;
            }
            self.symbol.1.push(c);
        }
    }
}

fn seen(v: &Vec<char>, c: char) -> (r: bool)
    ensures
        r == v@.contains(c),
{
    let mut i: usize = 0;
    while i < v.len()
        invariant
            i <= v@.len(),
            forall|k: int| 0 <= k < i ==> v@[k] != c,
        decreases v@.len() - i,
    {
        if v[i] == c {
            return true;
        }
        i += 1;
    }
    false
}

proof fn lemma_tally_step(t0: (usize, Seq<char>), t1: (usize, Seq<char>), pred: spec_fn(char) -> bool, s: Seq<char>, c: char)
    requires
        t0.1 == s.filter(pred),
        t0.0 == distinct_count(t0.1),
        counted(t0, t1, c, pred(c)),
    ensures
        t1.1 == s.push(c).filter(pred),
        t1.0 == distinct_count(t1.1),
{
    s.lemma_filter_push(c, pred);
    if pred(c) {
        assert(t1.1.drop_last() =~= t0.1);
    }
}

impl From<String> for Frequency {
    fn from(s: String) -> (r: Frequency)
        ensures
            r.of(s@),
    {
        let mut ret = Frequency::new();
        let t = s.as_str();
        let n = t.unicode_len();
        let mut i: usize = 0;
        assert(s@.subrange(0, 0) =~= Seq::<char>::empty());
        while i < n
            invariant
                n == s@.len(),
                t@ == s@,
                i <= n,
                ret.of(s@.subrange(0, i as int)),
            decreases n - i,
        {
            let c = t.get_char(i);
            let ghost pre = s@.subrange(0, i as int);
            proof {
                lowers(pre).lemma_filter_len(|c: char| is_lower(c));
                lemma_distinct_count_bound(lowers(pre));
                uppers(pre).lemma_filter_len(|c: char| is_upper(c));
                lemma_distinct_count_bound(uppers(pre));
                numbers(pre).lemma_filter_len(|c: char| is_number(c));
                lemma_distinct_count_bound(numbers(pre));
                symbols(pre).lemma_filter_len(|c: char| is_symbol(c));
                lemma_distinct_count_bound(symbols(pre));
            }
            let ghost before = ret;
            ret.add(c);
            proof {
                assert(s@.subrange(0, i + 1) =~= pre.push(c));
                lemma_tally_step(tally_of(before.lower), tally_of(ret.lower), |c: char| is_lower(c), pre, c);
                lemma_tally_step(tally_of(before.upper), tally_of(ret.upper), |c: char| is_upper(c), pre, c);
                lemma_tally_step(tally_of(before.number), tally_of(ret.number), |c: char| is_number(c), pre, c);
                lemma_tally_step(tally_of(before.symbol), tally_of(ret.symbol), |c: char| is_symbol(c), pre, c);
            }
            i += 1;
        }
        assert(s@.subrange(0, n as int) =~= s@);
        ret
    }
}

impl vstd::std_specs::convert::FromSpecImpl<String> for Frequency {
    open spec fn obeys_from_spec() -> bool {
        false
    }

    open spec fn from_spec(v: String) -> Frequency {
        vstd::pervasive::arbitrary()
    }
}

#[derive(Default)]
pub struct Freq {
    pub total: usize,
    pub uneeq: usize,
}

impl Freq {
    pub fn new(total: usize, uneeq: usize) -> (r: Self)
        ensures
            r.total == total,
            r.uneeq == uneeq,
    {
        Freq { total, uneeq }
    }
}

/// Per class, and over all classes: characters counted, and distinct ones.
#[derive(Default)]
pub struct Distribution {
    pub all: Freq,
    pub lower: Freq,
    pub upper: Freq,
    pub number: Freq,
    pub symbol: Freq,
}

/// `x`, or `usize::MAX` where `x` does not fit.
pub open spec fn capped(x: int) -> usize {
    if x > usize::MAX {
        usize::MAX
    } else {
        x as usize
    }
}

/// The summary of one class's tally: characters seen, and distinct ones.
pub open spec fn summary(f: Freq, t: (usize, Vec<char>)) -> bool {
    f.total == t.1@.len() && f.uneeq == t.0
}

impl From<Frequency> for Distribution {
    /// The four character counts stand for the characters of one text in memory, so their
    /// sums never reach `usize::MAX` in practice; they saturate to keep this conversion total.
    fn from(f: Frequency) -> (r: Distribution)
        ensures
            summary(r.lower, f.lower),
            summary(r.upper, f.upper),
            summary(r.number, f.number),
            summary(r.symbol, f.symbol),
            r.all.total == capped(
                (f.lower.1@.len() + f.upper.1@.len() + f.number.1@.len() + f.symbol.1@.len()) as int,
            ),
            r.all.uneeq == capped(f.lower.0 + f.upper.0 + f.number.0 + f.symbol.0),
    {
        let all_t = f.lower.1.len().saturating_add(f.upper.1.len()).saturating_add(
            f.number.1.len(),
        ).saturating_add(f.symbol.1.len());
        let all_u = f.lower.0.saturating_add(f.upper.0).saturating_add(f.number.0).saturating_add(
            f.symbol.0,
        );
        Distribution {
            all: Freq::new(all_t, all_u),
            lower: Freq::new(f.lower.1.len(), f.lower.0),
            upper: Freq::new(f.upper.1.len(), f.upper.0),
            number: Freq::new(f.number.1.len(), f.number.0),
            symbol: Freq::new(f.symbol.1.len(), f.symbol.0),
        }
    }
}

impl vstd::std_specs::convert::FromSpecImpl<Frequency> for Distribution {
    open spec fn obeys_from_spec() -> bool {
        false
    }

    open spec fn from_spec(v: Frequency) -> Distribution {
        vstd::pervasive::arbitrary()
    }
}

/// Characters of `s` that fall in one of the four classes.
pub open spec fn classified_len(s: Seq<char>) -> int {
    (lowers(s).len() + uppers(s).len() + numbers(s).len() + symbols(s).len()) as int
}

/// The strength of the password `s`, from 0 to 50:
/// 0 when it holds a common password; 5 when it is at most 4 bytes long; 10 when at most
/// 8 of its characters are letters, digits or symbols; 20 when it lacks a lowercase letter,
/// an uppercase letter or a digit; 30 when it lacks a symbol; 40 when at most 14 of its
/// characters are classified; 50 otherwise.
pub open spec fn strength(s: Seq<char>) -> u8 {
    if is_common(s) {
        0
    } else if vstd::utf8::encode_utf8(s).len() as usize <= 4 {
        5
    } else if classified_len(s) <= 8 {
        10
    } else if uppers(s).len() == 0 || lowers(s).len() == 0 || numbers(s).len() == 0 {
        20
    } else if symbols(s).len() == 0 {
        30
    } else if classified_len(s) <= 14 {
        40
    } else {
        50
    }
}

/// Password Strength Score
/// >output ranges from 0-50
/// 0  - matches/contains common passwords
/// 5  - length < 5 characters
/// 10 - length < 9 characters
/// 20 - does not contain lowercase, uppercase or number
/// 30 - does not contain symbol
/// 40 - length < 15 characters
/// 50 - everything else right now
pub fn score(s: String) -> (r: u8)
    ensures
        r == strength(s@),
        r <= 50,
{
    let mut score: u8 = 0;
    if common_password(s.as_str()) {
        return score;
    }
    score += 5u8;
    if s.as_str().len() <= 4usize {
        return score;
    }
    score += 5u8;
    let f: Frequency = Frequency::from(s);
    let d: Distribution = Distribution::from(f);
    if d.all.total <= 8usize {
        return score;
    }
    score += 10u8;
    if d.upper.total == 0 || d.lower.total == 0 || d.number.total == 0 {
        return score;
    }
    score += 10u8;
    if d.symbol.total == 0 {
        return score;
    }
    score += 10u8;
    if d.all.total <= 14usize {
        return score;
    }
    score += 10u8;
    score
}

/// Relies on rand's `thread_rng` and `Rng::gen_range`: a number drawn from `low..high`,
/// which must not be empty.
#[verifier::external_body]
fn random_range(low: usize, high: usize) -> (r: usize)
    requires
        low < high,
    ensures
        low <= r < high,
{
    rand::Rng::gen_range(&mut rand::thread_rng(), low, high)
}

/// Relies on rand's `SliceRandom::shuffle`: the characters are permuted.
#[verifier::external_body]
fn shuffle_chars(v: &mut Vec<char>)
    ensures
        final(v)@.to_multiset() == old(v)@.to_multiset(),
{
    rand::seq::SliceRandom::shuffle(v.as_mut_slice(), &mut rand::thread_rng())
}

/// Relies on std's `FromIterator<char>` for `String`: the characters, in order.
#[verifier::external_body]
fn string_of(v: Vec<char>) -> (r: String)
    ensures
        r@ == v@,
{
    v.into_iter().collect()
}

/// The characters of `s`, in a random order.
pub fn shuffle(s: &str) -> (r: String)
    ensures
        r@.to_multiset() == s@.to_multiset(),
        r@.len() == s@.len(),
{
    let n = s.unicode_len();
    let mut chars: Vec<char> = Vec::new();
    let mut i: usize = 0;
    while i < n
        invariant
            n == s@.len(),
            i <= n,
            chars@ == s@.subrange(0, i as int),
        decreases n - i,
    {
        chars.push(s.get_char(i));
        i += 1;
        assert(chars@ =~= s@.subrange(0, i as int));
    }
    assert(chars@ =~= s@);
    shuffle_chars(&mut chars);
    let r = string_of(chars);
    proof {
        r@.to_multiset_ensures();
        s@.to_multiset_ensures();
    }
    r
}

/// Class 0 is lowercase letters, 1 uppercase letters, 2 digits, 3 symbols.
pub open spec fn in_class(c: char, class: u8) -> bool {
    if class == 0 {
        is_lower(c)
    } else if class == 1 {
        is_upper(c)
    } else if class == 2 {
        is_number(c)
    } else {
        is_symbol(c)
    }
}

/// The character at position `k` of the alphabet of `class` in `A`.
fn alphabet_char(class: u8, k: usize) -> (c: char)
    requires
        class < 4,
        class == 0 ==> k < 26,
        class == 1 ==> k < 26,
        class == 2 ==> k < 10,
        class == 3 ==> k < 33,
    ensures
        in_class(c, class),
{
    proof {
        reveal_strlit("abcdefghijklmnopqrstuvwxyz");
        reveal_strlit("ABCDEFGHIJKLMNOPQRSTUVWXYZ");
        reveal_strlit("0123456789");
        reveal_strlit(" !\"#$%&'()*+,-./:;<=>?@[\\]^_`{|}~");
    }
    let b: u8 = if class == 0 {
        A::LOWER.get_ascii(k)
    } else if class == 1 {
        A::UPPER.get_ascii(k)
    } else if class == 2 {
        A::NUMBERS.get_ascii(k)
    } else {
        A::SYMBOLS.get_ascii(k)
    };
    b as char
}

/// Appends `n` characters drawn at random from the alphabet of `class`, past its first one.
fn push_drawn(ret: &mut Vec<char>, n: usize, class: u8)
    requires
        class < 4,
    ensures
        final(ret)@.len() == old(ret)@.len() + n,
        final(ret)@.subrange(0, old(ret)@.len() as int) == old(ret)@,
        forall|i: int| old(ret)@.len() <= i < final(ret)@.len() ==> in_class(#[trigger] final(ret)@[i], class),
{
    proof {
        reveal_strlit("abcdefghijklmnopqrstuvwxyz");
        reveal_strlit("ABCDEFGHIJKLMNOPQRSTUVWXYZ");
        reveal_strlit("0123456789");
        reveal_strlit(" !\"#$%&'()*+,-./:;<=>?@[\\]^_`{|}~");
        vstd::string::is_ascii_spec_bytes(A::LOWER);
        vstd::string::is_ascii_spec_bytes(A::UPPER);
        vstd::string::is_ascii_spec_bytes(A::NUMBERS);
        vstd::string::is_ascii_spec_bytes(A::SYMBOLS);
    }
    let size: usize = if class == 0 {
        A::LOWER.len()
    } else if class == 1 {
        A::UPPER.len()
    } else if class == 2 {
        A::NUMBERS.len()
    } else {
        A::SYMBOLS.len()
    };
    let ghost start = ret@;
    let mut j: usize = 0;
    while j < n
        invariant
            j <= n,
            ret@.len() == start.len() + j,
            ret@.subrange(0, start.len() as int) == start,
            forall|i: int| start.len() <= i < ret@.len() ==> in_class(#[trigger] ret@[i], class),
            class < 4,
            size == (if class == 0 {
                26usize
            } else if class == 1 {
                26usize
            } else if class == 2 {
                10usize
            } else {
                33usize
            }),
        decreases n - j,
    {
        let c = alphabet_char(class, random_range(1, size));
        let ghost before = ret@;
        ret.push(c);
        assert(ret@.subrange(0, start.len() as int) =~= before.subrange(0, start.len() as int));
        j += 1;
    }
}

/// True when some character of `s` is in `class`.
pub open spec fn has_class(s: Seq<char>, class: u8) -> bool {
    exists|i: int| 0 <= i < s.len() && #[trigger] in_class(s[i], class)
}

/// Every character of `s` is a letter or a digit, or also a symbol where `symbols` holds.
pub open spec fn drawn_from(s: Seq<char>, symbols: bool) -> bool {
    forall|i: int|
        0 <= i < s.len() ==> in_class(#[trigger] s[i], 0) || in_class(s[i], 1) || in_class(s[i], 2)
            || (symbols && in_class(s[i], 3))
}

proof fn lemma_shuffled_keeps_classes(pre: Seq<char>, post: Seq<char>, symbols: bool)
    requires
        post.to_multiset() == pre.to_multiset(),
        drawn_from(pre, symbols),
    ensures
        drawn_from(post, symbols),
        forall|class: u8| has_class(pre, class) ==> has_class(post, class),
{
    pre.to_multiset_ensures();
    post.to_multiset_ensures();
    assert forall|i: int| 0 <= i < post.len() implies in_class(#[trigger] post[i], 0) || in_class(
        post[i],
        1,
    ) || in_class(post[i], 2) || (symbols && in_class(post[i], 3)) by {
        assert(post.contains(post[i]));
        assert(post.to_multiset().count(post[i]) > 0);
        assert(pre.to_multiset().count(post[i]) > 0);
        assert(pre.contains(post[i]));
        let j = choose|j: int| 0 <= j < pre.len() && pre[j] == post[i];
        assert(in_class(pre[j], 0) || in_class(pre[j], 1) || in_class(pre[j], 2) || (symbols
            && in_class(pre[j], 3)));
    }
    assert forall|class: u8| has_class(pre, class) implies has_class(post, class) by {
        let j = choose|j: int| 0 <= j < pre.len() && #[trigger] in_class(pre[j], class);
        assert(pre.contains(pre[j]));
        assert(pre.to_multiset().count(pre[j]) > 0);
        assert(post.to_multiset().count(pre[j]) > 0);
        assert(post.contains(pre[j]));
        let i = choose|i: int| 0 <= i < post.len() && post[i] == pre[j];
        assert(in_class(post[i], class));
    }
}

/// Random password generation.
pub struct Generator;

impl Generator {
    /// A password of `len` letters and digits, with at least one lowercase letter, one
    /// uppercase letter and one digit, in random order.
    pub fn simple(len: usize) -> (r: String)
        requires
            len >= 5,
        ensures
            r@.len() == len,
            drawn_from(r@, false),
            has_class(r@, 0),
            has_class(r@, 1),
            has_class(r@, 2),
    {
        let mut space_left = len;
        let lower = random_range(1, len - 3);
        space_left -= lower;
        let upper = random_range(1, space_left - 2);
        space_left -= upper;
        let number = space_left;
        let mut ret: Vec<char> = Vec::new();
        push_drawn(&mut ret, lower, 0);
        let ghost first = ret@;
        push_drawn(&mut ret, upper, 1);
        let ghost second = ret@;
        push_drawn(&mut ret, number, 2);
        proof {
            assert(first[0] == ret@.subrange(0, second.len() as int).subrange(0, first.len() as int)[0]);
            assert(in_class(ret@[0], 0));
            assert(in_class(second[lower as int], 1));
            assert(ret@[lower as int] == ret@.subrange(0, second.len() as int)[lower as int]);
            assert(in_class(ret@[lower as int], 1));
            assert(in_class(ret@[(lower + upper) as int], 2));
            assert forall|i: int| 0 <= i < ret@.len() implies in_class(#[trigger] ret@[i], 0)
                || in_class(ret@[i], 1) || in_class(ret@[i], 2) by {
                if i < first.len() {
                    assert(ret@[i] == ret@.subrange(0, second.len() as int).subrange(0, first.len() as int)[i]);
                } else if i < second.len() {
                    assert(ret@[i] == ret@.subrange(0, second.len() as int)[i]);
                }
            }
        }
        let ret = string_of(ret);
        let ghost pre = ret@;
        let r = shuffle(ret.as_str());
        proof {
            lemma_shuffled_keeps_classes(pre, r@, false);
        }
        r
    }

    /// A password of `len` letters, digits and symbols, with at least one of each of
    /// lowercase letters, uppercase letters, digits and symbols, in random order.
    pub fn standard(len: usize) -> (r: String)
        requires
            len >= 5,
        ensures
            r@.len() == len,
            drawn_from(r@, true),
            has_class(r@, 0),
            has_class(r@, 1),
            has_class(r@, 2),
            has_class(r@, 3),
    {
        let mut space_left = len;
        let lower = random_range(1, len - 3);
        space_left -= lower;
        let upper = random_range(1, space_left - 2);
        space_left -= upper;
        let number = random_range(1, space_left - 1);
        space_left -= number;
        let symbol = space_left;
        let mut ret: Vec<char> = Vec::new();
        push_drawn(&mut ret, lower, 0);
        let ghost first = ret@;
        push_drawn(&mut ret, upper, 1);
        let ghost second = ret@;
        push_drawn(&mut ret, number, 2);
        let ghost third = ret@;
        push_drawn(&mut ret, symbol, 3);
        proof {
            let all = ret@;
            assert(third =~= all.subrange(0, third.len() as int));
            assert(second =~= all.subrange(0, second.len() as int));
            assert(first =~= all.subrange(0, first.len() as int));
            assert(in_class(first[0], 0));
            assert(in_class(all[0], 0));
            assert(in_class(second[lower as int], 1));
            assert(in_class(all[lower as int], 1));
            assert(in_class(third[(lower + upper) as int], 2));
            assert(in_class(all[(lower + upper) as int], 2));
            assert(in_class(all[(lower + upper + number) as int], 3));
            assert forall|i: int| 0 <= i < all.len() implies in_class(#[trigger] all[i], 0)
                || in_class(all[i], 1) || in_class(all[i], 2) || in_class(all[i], 3) by {
                if i < first.len() {
                    assert(all[i] == first[i]);
                } else if i < second.len() {
                    assert(all[i] == second[i]);
                } else if i < third.len() {
                    assert(all[i] == third[i]);
                }
            }
        }
        let ret = string_of(ret);
        let ghost pre = ret@;
        let r = shuffle(ret.as_str());
        proof {
            lemma_shuffled_keeps_classes(pre, r@, true);
        }
        r
    }
}

} // verus!
