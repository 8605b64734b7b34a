//! LRC lyrics: timed lines `[mm:ss.xx]text`, plain lines and their parsing.
//!
//! Times are kept as whole microseconds, the unit MPRIS players report
//! positions in; a time before the start of the track is negative.
use vstd::prelude::*;
use vstd::multiset::Multiset;
use crate::text::{
    all_digits, chars_eq_ignore_ascii_case, chars_of, copy_range, eq_ignore_ascii_case, digits_value, digit_value, find_char, find_from, is_digit, lemma_find_from,
    lemma_trim_len, lemma_trim_fixed, lemma_trim_idempotent, lines_of, split_lines, string_of, strings_view, trim,
    trim_chars, vecs_view,
};

verus! {

broadcast use vstd::seq_lib::group_seq_properties;

/// One timed lyric line: the time (in whole microseconds, negative before the
/// start of the track) it starts at, and its text.
#[derive(Debug)]
pub struct LrcLine {
    pub time_us: i64,
    pub text: String,
}

impl View for LrcLine {
    type V = (i64, Seq<char>);

    open spec fn view(&self) -> (i64, Seq<char>) {
        (self.time_us, self.text@)
    }
}

impl Clone for LrcLine {
    fn clone(&self) -> (r: Self)
        ensures
            r@ == self@,
    {
        LrcLine { time_us: self.time_us, text: self.text.clone() }
    }
}

/// The mathematical content of a `LyricsData`.
pub struct LyricsModel {
    pub synced: bool,
    pub lines: Seq<(i64, Seq<char>)>,
    pub plain_lines: Seq<Seq<char>>,
}

/// The lyrics of a track: timed lines when they are synced, and the plain
/// (untimed) lines.
#[derive(Debug)]
pub struct LyricsData {
    pub synced: bool,
    pub lines: Vec<LrcLine>,
    pub plain_lines: Vec<String>,
}

/// The views of a sequence of timed lines.
pub open spec fn lines_view(v: Seq<LrcLine>) -> Seq<(i64, Seq<char>)> {
    v.map_values(|l: LrcLine| l@)
}

impl View for LyricsData {
    type V = LyricsModel;

    open spec fn view(&self) -> LyricsModel {
        LyricsModel {
            synced: self.synced,
            lines: lines_view(self.lines@),
            plain_lines: strings_view(self.plain_lines@),
        }
    }
}

/// The text shown when there are no lyrics.
pub open spec fn no_lyrics_text() -> Seq<char> {
    "No lyrics available"@
}

/// The text shown for a track without words.
pub open spec fn instrumental_text() -> Seq<char> {
    "\u{266a} Instrumental Track \u{266a}"@
}

impl LyricsModel {
    /// Lyrics with nothing to show: no timed lines, and no plain lines but
    /// possibly the "no lyrics" placeholder.
    pub open spec fn is_empty(self) -> bool {
        &&& self.lines.len() == 0
        &&& (self.plain_lines.len() == 0 || (self.plain_lines.len() == 1 && self.plain_lines[0]
            == no_lyrics_text()))
    }

    /// The placeholder lyrics: unsynced, one "no lyrics" line.
    pub open spec fn empty() -> LyricsModel {
        LyricsModel { synced: false, lines: seq![], plain_lines: seq![no_lyrics_text()] }
    }

    /// The lyrics of an instrumental track: unsynced, one instrumental line.
    pub open spec fn instrumental() -> LyricsModel {
        LyricsModel { synced: false, lines: seq![], plain_lines: seq![instrumental_text()] }
    }

    /// Whether these are exactly the instrumental lyrics.
    pub open spec fn is_instrumental(self) -> bool {
        self.plain_lines.len() == 1 && self.plain_lines[0] == instrumental_text()
    }
}

/// Whether two character sequences are equal.
pub fn chars_equal(a: &[char], b: &[char]) -> (r: bool)
    ensures
        r == (a@ == b@),
{
    if a.len() != b.len() {
        return false;
    }
    let mut i: usize = 0;
    while i < a.len()
        invariant
            i <= a@.len() == b@.len(),
            forall|k: int| 0 <= k < i ==> a@[k] == b@[k],
        decreases a@.len() - i,
    {
        if a[i] != b[i] {
            return false;
        }
        i = i + 1;
    }
    assert(a@ =~= b@);
    true
}

/// Whether two strings hold the same characters.
pub fn str_equal(a: &str, b: &str) -> (r: bool)
    ensures
        r == (a@ == b@),
{
    let ca = chars_of(a);
    let cb = chars_of(b);
    chars_equal(&ca, &cb)
}

/// Clones a vector of strings.
pub fn clone_strings(v: &Vec<String>) -> (r: Vec<String>)
    ensures
        strings_view(r@) == strings_view(v@),
{
    let mut r: Vec<String> = Vec::new();
    let mut i: usize = 0;
    while i < v.len()
        invariant
            i <= v@.len(),
            r@.len() == i,
            forall|k: int| 0 <= k < i ==> #[trigger] r@[k]@ == v@[k]@,
        decreases v@.len() - i,
    {
        let c = v[i].clone();
        r.push(c);

        i = i + 1;
    }
    assert(strings_view(r@) =~= strings_view(v@));
    r
}

/// Clones a vector of timed lines.
pub fn clone_lines(v: &Vec<LrcLine>) -> (r: Vec<LrcLine>)
    ensures
        lines_view(r@) == lines_view(v@),
{
    let mut r: Vec<LrcLine> = Vec::new();
    let mut i: usize = 0;
    while i < v.len()
        invariant
            i <= v@.len(),
            r@.len() == i,
            forall|k: int| 0 <= k < i ==> #[trigger] r@[k]@ == v@[k]@,
        decreases v@.len() - i,
    {
        let c = v[i].clone();
        r.push(c);

        i = i + 1;
    }
    assert(lines_view(r@) =~= lines_view(v@));
    r
}

impl Clone for LyricsData {
    fn clone(&self) -> (r: Self)
        ensures
            r@ == self@,
    {
        LyricsData {
            synced: self.synced,
            lines: clone_lines(&self.lines),
            plain_lines: clone_strings(&self.plain_lines),
        }
    }
}

impl LyricsData {
    /// The placeholder shown when no lyrics were found.
    pub fn empty() -> (r: LyricsData)
        ensures
            r@ == LyricsModel::empty(),
    {
        let mut plain_lines: Vec<String> = Vec::new();
        plain_lines.push("No lyrics available".to_string());
        let r = LyricsData { synced: false, lines: Vec::new(), plain_lines };
        assert(r@.plain_lines =~= seq![no_lyrics_text()]);
        assert(r@.lines =~= Seq::<(i64, Seq<char>)>::empty());
        r
    }

    /// Lyrics that show nothing: no timed lines, and no plain lines except
    /// possibly the placeholder.
    pub fn is_empty(&self) -> (r: bool)
        ensures
            r == self@.is_empty(),
    {
        self.lines.len() == 0 && (self.plain_lines.len() == 0 || (self.plain_lines.len() == 1
            && str_equal(self.plain_lines[0].as_str(), "No lyrics available")))
    }

    /// Whether these are exactly the instrumental lyrics.
    pub fn is_instrumental(&self) -> (r: bool)
        ensures
            r == self@.is_instrumental(),
    {
        self.plain_lines.len() == 1 && str_equal(
            self.plain_lines[0].as_str(),
            "\u{266a} Instrumental Track \u{266a}",
        )
    }
}

// ---------------------------------------------------------------------------
// Timestamps
// ---------------------------------------------------------------------------
//
// Each part of a time tag is read as a float parser reads a number: an
// optional sign, then either one of the words `inf`, `infinity` and `nan` (in
// any case), or digits with an optional point and an optional exponent (`e`
// or `E`, an optional sign, digits), with at least one digit before the
// exponent (`7`, `-1`, `+1.5`, `1.`, `.5`, `1e1`, `2.5E-3`). A finite part is
// turned into whole units (the microsecond; for minutes, a ten-millionth of a
// minute, which is six microseconds) by reading its digits up to the unit and
// dropping the rest (truncation toward zero); a part of more than `u64::MAX`
// units counts as `u64::MAX` units.

/// Exponents beyond this many places are read as this many: the part is then
/// either zero or out of every range anyway.
pub const EXP_CAP: u128 = 1_000_000_000_000_000_000_000_000_000_000;

/// What one part of a time tag stands for, in whole units.
#[derive(Clone, Copy, Debug)]
pub enum TagValue {
    Finite(i128),
    PosInf,
    NegInf,
    NaN,
}

/// The length of the sign `s` starts with: 1 for `+` or `-`, else 0.
pub open spec fn sign_len(s: Seq<char>) -> int {
    if s.len() > 0 && (s[0] == '+' || s[0] == '-') {
        1
    } else {
        0
    }
}

/// `s` without its sign.
pub open spec fn unsigned_part(s: Seq<char>) -> Seq<char> {
    s.subrange(sign_len(s), s.len() as int)
}

/// Whether `s` has a minus sign.
pub open spec fn is_negative(s: Seq<char>) -> bool {
    s.len() > 0 && s[0] == '-'
}

/// The first `e` or `E` in `u`.
pub open spec fn exp_marker(u: Seq<char>) -> Option<int> {
    match (find_from(u, 'e', 0), find_from(u, 'E', 0)) {
        (Some(a), Some(b)) => Some(
            if a < b {
                a
            } else {
                b
            },
        ),
        (Some(a), None) => Some(a),
        (None, Some(b)) => Some(b),
        (None, None) => None,
    }
}

/// The number `s` without its sign and exponent.
pub open spec fn mantissa(s: Seq<char>) -> Seq<char> {
    let u = unsigned_part(s);
    match exp_marker(u) {
        Some(m) => u.subrange(0, m),
        None => u,
    }
}

/// What follows the `e` of the number `s`, if it has one.
pub open spec fn exponent_part(s: Seq<char>) -> Option<Seq<char>> {
    let u = unsigned_part(s);
    match exp_marker(u) {
        Some(m) => Some(u.subrange(m + 1, u.len() as int)),
        None => None,
    }
}

/// The digits of the number `s` before its point.
pub open spec fn int_digits(s: Seq<char>) -> Seq<char> {
    let u = mantissa(s);
    match find_from(u, '.', 0) {
        Some(d) => u.subrange(0, d),
        None => u,
    }
}

/// The digits of the number `s` after its point.
pub open spec fn frac_digits(s: Seq<char>) -> Seq<char> {
    let u = mantissa(s);
    match find_from(u, '.', 0) {
        Some(d) => u.subrange(d + 1, u.len() as int),
        None => seq![],
    }
}

/// Whether the exponent of `s`, if any, is an optional sign and digits.
pub open spec fn exp_ok(s: Seq<char>) -> bool {
    match exponent_part(s) {
        Some(x) => unsigned_part(x).len() > 0 && all_digits(unsigned_part(x)),
        None => true,
    }
}

/// The exponent of `s` (0 without one).
pub open spec fn exp_value(s: Seq<char>) -> int {
    match exponent_part(s) {
        Some(x) => if is_negative(x) {
            -digits_value(unsigned_part(x))
        } else {
            digits_value(unsigned_part(x)) as int
        },
        None => 0,
    }
}

/// Whether `s` is a finite number: a sign, digits, a point, digits and an
/// exponent, with all but the digits optional and at least one digit before
/// the exponent.
pub open spec fn is_decimal(s: Seq<char>) -> bool {
    &&& all_digits(int_digits(s))
    &&& all_digits(frac_digits(s))
    &&& int_digits(s).len() + frac_digits(s).len() > 0
    &&& exp_ok(s)
}

/// `n` zero digits.
pub open spec fn zeros(n: nat) -> Seq<char> {
    Seq::new(n, |i: int| '0')
}

/// The first `n` digits of `d`, padded with zeros where `d` is shorter; no
/// digits when `n` is not positive.
pub open spec fn digits_to(d: Seq<char>, n: int) -> Seq<char> {
    if n <= 0 {
        seq![]
    } else if n <= d.len() {
        d.subrange(0, n)
    } else {
        d + zeros((n - d.len()) as nat)
    }
}

/// `|x| * 10^k` with its fraction dropped, where `x` is the number `s`: the
/// value of its digits up to `k` places past its point (as moved by the
/// exponent).
pub open spec fn magnitude_scaled(s: Seq<char>, k: int) -> nat {
    digits_value(
        digits_to(int_digits(s) + frac_digits(s), int_digits(s).len() + k + exp_value(s)),
    )
}

/// `n`, or `u64::MAX` when `n` is larger.
pub open spec fn clamped(n: nat) -> nat {
    if n > u64::MAX {
        u64::MAX as nat
    } else {
        n
    }
}

/// The word for an infinite number.
pub open spec fn is_infinity_word(u: Seq<char>) -> bool {
    eq_ignore_ascii_case(u, seq!['i', 'n', 'f']) || eq_ignore_ascii_case(
        u,
        seq!['i', 'n', 'f', 'i', 'n', 'i', 't', 'y'],
    )
}

/// The word for not-a-number.
pub open spec fn is_nan_word(u: Seq<char>) -> bool {
    eq_ignore_ascii_case(u, seq!['n', 'a', 'n'])
}

/// The part `s` of a time tag, in units of `10^-k`: `None` when `s` is not a
/// number.
pub open spec fn tag_value(s: Seq<char>, k: int) -> Option<TagValue> {
    let u = unsigned_part(s);
    if is_infinity_word(u) {
        Some(
            if is_negative(s) {
                TagValue::NegInf
            } else {
                TagValue::PosInf
            },
        )
    } else if is_nan_word(u) {
        Some(TagValue::NaN)
    } else if is_decimal(s) {
        let m = clamped(magnitude_scaled(s, k));
        Some(
            TagValue::Finite(
                (if is_negative(s) {
                    -m
                } else {
                    m as int
                }) as i128,
            ),
        )
    } else {
        None
    }
}

/// A finite value lies within `b` of zero.
pub open spec fn within(v: TagValue, b: int) -> bool {
    match v {
        TagValue::Finite(x) => -b <= x <= b,
        _ => true,
    }
}

/// The sum of two parts, as floats add: not-a-number when either is, or
/// when infinities of opposite signs meet.
pub open spec fn add_values(a: TagValue, b: TagValue) -> TagValue {
    match (a, b) {
        (TagValue::NaN, _) => TagValue::NaN,
        (_, TagValue::NaN) => TagValue::NaN,
        (TagValue::PosInf, TagValue::NegInf) => TagValue::NaN,
        (TagValue::NegInf, TagValue::PosInf) => TagValue::NaN,
        (TagValue::PosInf, _) => TagValue::PosInf,
        (_, TagValue::PosInf) => TagValue::PosInf,
        (TagValue::NegInf, _) => TagValue::NegInf,
        (_, TagValue::NegInf) => TagValue::NegInf,
        (TagValue::Finite(x), TagValue::Finite(y)) => TagValue::Finite((x + y) as i128),
    }
}

/// Six times a part (minutes in ten-millionths, made microseconds).
pub open spec fn times_six(a: TagValue) -> TagValue {
    match a {
        TagValue::Finite(x) => TagValue::Finite((6 * x) as i128),
        other => other,
    }
}

/// Where the seconds part of a tag splits into seconds and fraction: at its
/// first `.` (`ss.xx`), or else at its first `:` (`ss:xx`).
pub open spec fn seconds_split(s: Seq<char>) -> Option<int> {
    match find_from(s, '.', 0) {
        Some(d) => Some(d),
        None => find_from(s, ':', 0),
    }
}

/// The seconds part of a tag in microseconds: `ss`, or `ss.xx` and `ss:xx`,
/// where `xx` counts in units of `10^-len(xx)` seconds (so `2:50` is 2.5 s).
pub open spec fn seconds_value(s: Seq<char>) -> Option<TagValue> {
    match seconds_split(s) {
        Some(d) => {
            let whole = s.subrange(0, d);
            let frac = s.subrange(d + 1, s.len() as int);
            match (tag_value(whole, 6), tag_value(frac, 6 - frac.len())) {
                (Some(a), Some(b)) => Some(add_values(a, b)),
                _ => None,
            }
        },
        None => tag_value(s, 6),
    }
}

/// The time a tag's value stands for: a finite value held to the range of
/// `i64`, an infinity at the matching end of it, and no time for
/// not-a-number.
pub open spec fn time_of(v: TagValue) -> Option<i64> {
    match v {
        TagValue::Finite(x) => Some(
            if x < i64::MIN {
                i64::MIN
            } else if x > i64::MAX {
                i64::MAX
            } else {
                x as i64
            },
        ),
        TagValue::PosInf => Some(i64::MAX),
        TagValue::NegInf => Some(i64::MIN),
        TagValue::NaN => None,
    }
}

/// The time that the tag `mm:ss`, `mm:ss.xx` or `mm:ss:xx` stands for, in
/// microseconds. The minutes are read to 1e-7 minute (6 microseconds), the
/// seconds and the fraction each to the microsecond, and the three added as
/// floats add. `None` when the tag has another form or the sum is
/// not-a-number; a sum beyond the range of `i64` is held to its ends.
pub open spec fn timestamp_us(tag: Seq<char>) -> Option<i64> {
    match find_from(tag, ':', 0) {
        Some(p) => match (tag_value(tag.subrange(0, p), 7), seconds_value(tag.subrange(p + 1, tag.len() as int))) {
            (Some(m), Some(sec)) => time_of(add_values(times_six(m), sec)),
            _ => None,
        },
        None => None,
    }
}

/// Whether `c` does not occur in `s`.
pub open spec fn lacks(s: Seq<char>, c: char) -> bool {
    forall|i: int| 0 <= i < s.len() ==> s[i] != c
}

proof fn lemma_find_after_prefix(a: Seq<char>, sep: char, b: Seq<char>, c: char)
    requires
        lacks(a, c),
        sep == c,
    ensures
        find_from(a + seq![sep] + b, c, 0) == Some(a.len() as int),
{
    let s = a + seq![sep] + b;
    lemma_find_from(s, c, 0);
    match find_from(s, c, 0) {
        Some(k) => {
            if k < a.len() {
                assert(s[k] == a[k]);
            } else if k > a.len() {
                assert(s[a.len() as int] == c);
            }
        },
        None => {
            assert(s[a.len() as int] == c);
        },
    }
}

proof fn lemma_find_absent(s: Seq<char>, c: char)
    requires
        lacks(s, c),
    ensures
        find_from(s, c, 0) is None,
{
    lemma_find_from(s, c, 0);
}

/// A tag `mm:ss:xx` stands for the same time as `mm:ss.xx`.
pub proof fn law_colon_fraction_as_point(mm: Seq<char>, ss: Seq<char>, xx: Seq<char>)
    requires
        lacks(mm, ':'),
        lacks(ss, ':'),
        lacks(ss, '.'),
        lacks(xx, '.'),
    ensures
        timestamp_us(mm + seq![':'] + (ss + seq![':'] + xx)) == timestamp_us(
            mm + seq![':'] + (ss + seq!['.'] + xx),
        ),
{
    let colon = ss + seq![':'] + xx;
    let point = ss + seq!['.'] + xx;
    let t1 = mm + seq![':'] + colon;
    let t2 = mm + seq![':'] + point;
    lemma_find_after_prefix(mm, ':', colon, ':');
    lemma_find_after_prefix(mm, ':', point, ':');
    let p = mm.len() as int;
    assert(t1.subrange(0, p) =~= mm);
    assert(t2.subrange(0, p) =~= mm);
    assert(t1.subrange(p + 1, t1.len() as int) =~= colon);
    assert(t2.subrange(p + 1, t2.len() as int) =~= point);
    assert(lacks(colon, '.')) by {
        assert forall|i: int| 0 <= i < colon.len() implies colon[i] != '.' by {
            if i < ss.len() {
                assert(colon[i] == ss[i]);
            } else if i > ss.len() {
                assert(colon[i] == xx[i - ss.len() - 1]);
            }
        }
    }
    lemma_find_absent(colon, '.');
    lemma_find_after_prefix(ss, ':', xx, ':');
    lemma_find_after_prefix(ss, '.', xx, '.');
    let d = ss.len() as int;
    assert(seconds_split(colon) == Some(d));
    assert(seconds_split(point) == Some(d));
    assert(colon.subrange(0, d) =~= ss);
    assert(point.subrange(0, d) =~= ss);
    assert(colon.subrange(d + 1, colon.len() as int) =~= xx);
    assert(point.subrange(d + 1, point.len() as int) =~= xx);
}

/// `10^n`.
pub open spec fn pow10(n: nat) -> nat
    decreases n,
{
    if n == 0 {
        1
    } else {
        10 * pow10((n - 1) as nat)
    }
}

/// Whether every character of `d` is `'0'`.
pub open spec fn all_zero(d: Seq<char>) -> bool {
    forall|i: int| 0 <= i < d.len() ==> d[i] == '0'
}

proof fn lemma_digits_append_zeros(d: Seq<char>, m: nat)
    ensures
        digits_value(d + zeros(m)) == digits_value(d) * pow10(m),
    decreases m,
{
    if m == 0 {
        assert(d + zeros(0) =~= d);
        assert(pow10(0) == 1);
        assert(digits_value(d) * 1 == digits_value(d));
    } else {
        lemma_digits_append_zeros(d, (m - 1) as nat);
        let s = d + zeros(m);
        assert(s.drop_last() =~= d + zeros((m - 1) as nat));
        assert(s.last() == '0');
        assert(digit_value(s.last()) == 0);
        assert(digits_value(s) == digits_value(s.drop_last()) * 10 + digit_value(s.last()));
        let a = digits_value(d);
        let p = pow10((m - 1) as nat);
        assert(pow10(m) == 10 * p);
        assert(a * p * 10 == a * (10 * p)) by (nonlinear_arith);
        assert(digits_value(s) == a * p * 10);
    }
}

proof fn lemma_digits_zero(d: Seq<char>)
    requires
        all_zero(d),
    ensures
        digits_value(d) == 0,
    decreases d.len(),
{
    if d.len() > 0 {
        lemma_digits_zero(d.drop_last());
    }
}

proof fn lemma_digits_positive(d: Seq<char>)
    requires
        all_digits(d),
        !all_zero(d),
    ensures
        digits_value(d) >= 1,
    decreases d.len(),
{
    if d.last() == '0' {
        assert(!all_zero(d.drop_last())) by {
            let i = choose|i: int| 0 <= i < d.len() && d[i] != '0';
            assert(d.drop_last()[i] == d[i]);
        }
        lemma_digits_positive(d.drop_last());
    } else {
        assert(is_digit(d[d.len() - 1]));
    }
}

proof fn lemma_pow10_large(m: nat)
    requires
        m >= 21,
    ensures
        pow10(m) > u64::MAX,
    decreases m,
{
    if m == 21 {
        reveal_with_fuel(pow10, 22);
        assert(pow10(21) == 1_000_000_000_000_000_000_000);
    } else {
        lemma_pow10_large((m - 1) as nat);
    }
}

proof fn lemma_digits_to_far(d: Seq<char>, n: int)
    requires
        all_digits(d),
        n > d.len() + 20,
    ensures
        clamped(digits_value(digits_to(d, n))) == (if all_zero(d) {
            0
        } else {
            u64::MAX as nat
        }),
{
    let m = (n - d.len()) as nat;
    lemma_digits_append_zeros(d, m);
    lemma_pow10_large(m);
    if all_zero(d) {
        lemma_digits_zero(d);
    } else {
        lemma_digits_positive(d);
        let a = digits_value(d);
        let p = pow10(m);
        assert(a * p >= p) by (nonlinear_arith)
            requires
                a >= 1,
        ;
    }
}

fn all_digit_chars(s: &[char]) -> (r: bool)
    ensures
        r == all_digits(s@),
{
    let mut i: usize = 0;
    while i < s.len()
        invariant
            i <= s@.len(),
            forall|k: int| 0 <= k < i ==> is_digit(#[trigger] s@[k]),
        decreases s@.len() - i,
    {
        if !('0' <= s[i] && s[i] <= '9') {
            return false;
        }
        i = i + 1;
    }
    true
}

fn unsigned_chars(s: &[char]) -> (r: Vec<char>)
    ensures
        r@ == unsigned_part(s@),
{
    let n = s.len();
    let k: usize = if n > 0 && (s[0] == '+' || s[0] == '-') {
        1
    } else {
        0
    };
    copy_range(s, k, n)
}

fn find_exp_marker(u: &[char]) -> (r: Option<usize>)
    ensures
        match r {
            Some(m) => exp_marker(u@) == Some(m as int),
            None => exp_marker(u@) is None,
        },
        r matches Some(m) ==> m < u@.len(),
{
    match (find_char(u, 'e', 0), find_char(u, 'E', 0)) {
        (Some(a), Some(b)) => Some(
            if a < b {
                a
            } else {
                b
            },
        ),
        (Some(a), None) => Some(a),
        (None, Some(b)) => Some(b),
        (None, None) => None,
    }
}

/// The value of the digits `d`, held to `EXP_CAP`.
fn capped_digits(d: &[char]) -> (r: u128)
    requires
        all_digits(d@),
    ensures
        r == (if digits_value(d@) >= EXP_CAP {
            EXP_CAP as nat
        } else {
            digits_value(d@)
        }),
{
    let n = d.len();
    let mut v: u128 = 0;
    let mut i: usize = 0;
    assert(d@.subrange(0, 0) =~= Seq::<char>::empty());
    while i < n
        invariant
            i <= n == d@.len(),
            all_digits(d@),
            v == (if digits_value(d@.subrange(0, i as int)) >= EXP_CAP {
                EXP_CAP as nat
            } else {
                digits_value(d@.subrange(0, i as int))
            }),
        decreases n - i,
    {
        assert(d@.subrange(0, i + 1).drop_last() =~= d@.subrange(0, i as int));
        assert(is_digit(d@[i as int]));
        let c = d[i];
        let dig = (c as u32 - '0' as u32) as u128;
        if v < EXP_CAP {
            let w = v * 10 + dig;
            v = if w >= EXP_CAP {
                EXP_CAP
            } else {
                w
            };
        }
        i = i + 1;
    }
    assert(d@.subrange(0, n as int) =~= d@);
    v
}

/// An exponent value held to `EXP_CAP` places either way.
pub open spec fn capped_exp(e: int) -> int {
    if e > EXP_CAP {
        EXP_CAP as int
    } else if e < -EXP_CAP {
        -EXP_CAP
    } else {
        e
    }
}

/// Reads the exponent `x` (what follows the `e`): `None` unless it is a sign
/// and digits.
fn read_exponent(x: &[char]) -> (r: Option<i128>)
    ensures
        match r {
            Some(e) => {
                &&& unsigned_part(x@).len() > 0
                &&& all_digits(unsigned_part(x@))
                &&& e == capped_exp(
                    if is_negative(x@) {
                        -digits_value(unsigned_part(x@))
                    } else {
                        digits_value(unsigned_part(x@)) as int
                    },
                )
            },
            None => !(unsigned_part(x@).len() > 0 && all_digits(unsigned_part(x@))),
        },
{
    let digits = unsigned_chars(x);
    if digits.len() == 0 || !all_digit_chars(&digits) {
        return None;
    }
    let v = capped_digits(&digits);
    if x.len() > 0 && x[0] == '-' {
        Some(-(v as i128))
    } else {
        Some(v as i128)
    }
}

/// Reads the finite number `s`: whether it is negative, its digits before and
/// after the point in one sequence, how many stand before the point, and its
/// exponent (held to `EXP_CAP`).
fn read_decimal(s: &[char]) -> (r: Option<(bool, Vec<char>, usize, i128)>)
    ensures
        match r {
            Some((neg, digits, n_int, e)) => {
                &&& is_decimal(s@)
                &&& neg == is_negative(s@)
                &&& digits@ == int_digits(s@) + frac_digits(s@)
                &&& n_int == int_digits(s@).len()
                &&& e == capped_exp(exp_value(s@))
            },
            None => !is_decimal(s@),
        },
{
    let u = unsigned_chars(s);
    let (mant, e): (Vec<char>, i128) = match find_exp_marker(&u) {
        Some(m) => {
            let ul = u.len();
            let ex = copy_range(&u, m + 1, ul);
            match read_exponent(&ex) {
                Some(e) => (copy_range(&u, 0, m), e),
                None => {
                    return None;
                },
            }
        },
        None => {
            assert(u@.subrange(0, u@.len() as int) =~= u@);
            (copy_range(&u, 0, u.len()), 0)
        },
    };
    assert(mant@ == mantissa(s@));
    proof {
        lemma_find_from(mant@, '.', 0);
    }
    let (mut int_part, mut frac_part) = match find_char(&mant, '.', 0) {
        Some(d) => {
            let m = mant.len();
            (copy_range(&mant, 0, d), copy_range(&mant, d + 1, m))
        },
        None => {
            assert(mant@.subrange(0, mant@.len() as int) =~= mant@);
            (copy_range(&mant, 0, mant.len()), Vec::new())
        },
    };
    assert(int_part@ == int_digits(s@));
    assert(frac_part@ =~= frac_digits(s@));
    if !all_digit_chars(&int_part) || !all_digit_chars(&frac_part) || (int_part.len() == 0
        && frac_part.len() == 0) {
        return None;
    }
    let n_int = int_part.len();
    int_part.append(&mut frac_part);
    let n = s.len();
    Some((n > 0 && s[0] == '-', int_part, n_int, e))
}

/// The first `n` digits of `d`, padded with zeros where `d` is shorter.
fn digits_up_to(d: &[char], n: u128) -> (r: Vec<char>)
    requires
        n <= d@.len() + 20,
    ensures
        r@ == digits_to(d@, n as int),
{
    if n == 0 {
        return Vec::new();
    }
    let len = d.len();
    if n <= len as u128 {
        let m = n as usize;
        return copy_range(d, 0, m);
    }
    let pad = (n - len as u128) as usize;
    let mut r = copy_range(d, 0, len);
    assert(d@.subrange(0, len as int) =~= d@);
    let mut i: usize = 0;
    while i < pad
        invariant
            i <= pad <= 20,
            pad == n - len,
            len == d@.len(),
            r@ == d@ + zeros(i as nat),
        decreases pad - i,
    {
        r.push('0');
        i = i + 1;
        assert(r@ =~= d@ + zeros(i as nat));
    }
    r
}

/// The value of the first `pos` digits of `d` (padded with zeros), held to
/// `u64::MAX`.
fn shifted_magnitude(d: &[char], pos: i128) -> (r: u64)
    requires
        all_digits(d@),
    ensures
        r == clamped(digits_value(digits_to(d@, pos as int))),
{
    let len = d.len();
    if pos <= 0 {
        assert(digits_to(d@, pos as int) =~= Seq::<char>::empty());
        return 0;
    }
    if pos <= len as i128 + 20 {
        let kept = digits_up_to(d, pos as u128);
        assert(kept@.len() == pos);
        assert(all_digits(kept@)) by {
            assert forall|i: int| 0 <= i < kept@.len() implies is_digit(#[trigger] kept@[i]) by {
                if i < d@.len() {
                    assert(is_digit(d@[i]));
                }
            }
        }
        match crate::text::parse_decimal(&kept) {
            Some(v) => v,
            None => u64::MAX,
        }
    } else {
        let mut i: usize = 0;
        while i < len
            invariant
                i <= len == d@.len(),
                pos > len + 20,
                all_digits(d@),
                forall|k: int| 0 <= k < i ==> d@[k] == '0',
            decreases len - i,
        {
            if d[i] != '0' {
                assert(!all_zero(d@));
                proof {
                    lemma_digits_to_far(d@, pos as int);
                }
                return u64::MAX;
            }
            i = i + 1;
        }
        proof {
            lemma_digits_to_far(d@, pos as int);
        }
        0
    }
}

/// Reads the part `s` of a time tag in units of `10^(down - up)`.
fn read_tag_part(s: &[char], up: usize, down: usize) -> (r: Option<TagValue>)
    requires
        up <= 7,
    ensures
        r == tag_value(s@, up - down),
        r matches Some(v) ==> within(v, u64::MAX as int),
{
    let u = unsigned_chars(s);
    let inf = chars_of("inf");
    let infinity = chars_of("infinity");
    let nan = chars_of("nan");
    proof {
        reveal_strlit("inf");
        reveal_strlit("infinity");
        reveal_strlit("nan");
        assert(inf@ =~= seq!['i', 'n', 'f']);
        assert(infinity@ =~= seq!['i', 'n', 'f', 'i', 'n', 'i', 't', 'y']);
        assert(nan@ =~= seq!['n', 'a', 'n']);
    }
    let n = s.len();
    let neg = n > 0 && s[0] == '-';
    if chars_eq_ignore_ascii_case(&u, &inf) || chars_eq_ignore_ascii_case(&u, &infinity) {
        return Some(
            if neg {
                TagValue::NegInf
            } else {
                TagValue::PosInf
            },
        );
    }
    if chars_eq_ignore_ascii_case(&u, &nan) {
        return Some(TagValue::NaN);
    }
    match read_decimal(s) {
        None => None,
        Some((neg, digits, n_int, e)) => {
            let dl = digits.len();
            let pos: i128 = n_int as i128 + up as i128 - down as i128 + e;
            let m = shifted_magnitude(&digits, pos);
            proof {
                let p = n_int + (up - down) + exp_value(s@);
                let ev = exp_value(s@);
                if ev > EXP_CAP {
                    lemma_digits_to_far(digits@, p);
                    lemma_digits_to_far(digits@, pos as int);
                } else if ev < -EXP_CAP {
                    assert(digits_to(digits@, p) =~= Seq::<char>::empty());
                    assert(digits_to(digits@, pos as int) =~= Seq::<char>::empty());
                }
                assert(clamped(magnitude_scaled(s@, up - down)) == m);
            }
            if neg {
                Some(TagValue::Finite(-(m as i128)))
            } else {
                Some(TagValue::Finite(m as i128))
            }
        },
    }
}

fn add_tag_values(a: TagValue, b: TagValue) -> (r: TagValue)
    requires
        within(a, 6 * u64::MAX),
        within(b, 2 * u64::MAX),
    ensures
        r == add_values(a, b),
{
    match (a, b) {
        (TagValue::NaN, _) => TagValue::NaN,
        (_, TagValue::NaN) => TagValue::NaN,
        (TagValue::PosInf, TagValue::NegInf) => TagValue::NaN,
        (TagValue::NegInf, TagValue::PosInf) => TagValue::NaN,
        (TagValue::PosInf, _) => TagValue::PosInf,
        (_, TagValue::PosInf) => TagValue::PosInf,
        (TagValue::NegInf, _) => TagValue::NegInf,
        (_, TagValue::NegInf) => TagValue::NegInf,
        (TagValue::Finite(x), TagValue::Finite(y)) => TagValue::Finite(x + y),
    }
}

fn parse_seconds(s: &[char]) -> (r: Option<TagValue>)
    ensures
        r == seconds_value(s@),
        r matches Some(v) ==> within(v, 2 * u64::MAX),
{
    proof {
        lemma_find_from(s@, '.', 0);
        lemma_find_from(s@, ':', 0);
    }
    let split = match find_char(s, '.', 0) {
        Some(d) => Some(d),
        None => find_char(s, ':', 0),
    };
    match split {
        Some(d) => {
            let whole = copy_range(s, 0, d);
            let n = s.len();
            let frac = copy_range(s, d + 1, n);
            let fl = frac.len();
            match (read_tag_part(&whole, 6, 0), read_tag_part(&frac, 6, fl)) {
                (Some(a), Some(b)) => Some(add_tag_values(a, b)),
                _ => None,
            }
        },
        None => read_tag_part(s, 6, 0),
    }
}

/// Reads a timestamp tag `mm:ss`, `mm:ss.xx` or `mm:ss:xx` (the text between
/// the brackets) as microseconds; see `timestamp_us` for what it takes.
pub fn parse_timestamp(tag: &[char]) -> (r: Option<i64>)
    ensures
        r == timestamp_us(tag@),
{
    proof {
        lemma_find_from(tag@, ':', 0);
    }
    match find_char(tag, ':', 0) {
        Some(p) => {
            let min_str = copy_range(tag, 0, p);
            let n = tag.len();
            let sec_part = copy_range(tag, p + 1, n);
            match (read_tag_part(&min_str, 7, 0), parse_seconds(&sec_part)) {
                (Some(m), Some(sec)) => {
                    let m6 = match m {
                        TagValue::Finite(x) => TagValue::Finite(6 * x),
                        other => other,
                    };
                    match add_tag_values(m6, sec) {
                        TagValue::Finite(x) => {
                            if x < i64::MIN as i128 {
                                Some(i64::MIN)
                            } else if x > i64::MAX as i128 {
                                Some(i64::MAX)
                            } else {
                                Some(x as i64)
                            }
                        },
                        TagValue::PosInf => Some(i64::MAX),
                        TagValue::NegInf => Some(i64::MIN),
                        TagValue::NaN => None,
                    }
                },
                _ => None,
            }
        },
        None => None,
    }
}

// ---------------------------------------------------------------------------
// Lines of an LRC file
// ---------------------------------------------------------------------------

/// The timed lines that the leading time tags of a trimmed line give: for
/// each leading `[tag]` that is a timestamp, the time and what follows the
/// tag (trimmed, and holding any tags after it); reading stops at the first
/// tag that is not a timestamp.
pub open spec fn tag_entries(text: Seq<char>) -> Seq<(i64, Seq<char>)>
    decreases text.len(),
{
    if text.len() > 0 && text[0] == '[' {
        match find_from(text, ']', 0) {
            Some(close) => match timestamp_us(text.subrange(1, close)) {
                Some(t) => {
                    proof {
                        lemma_find_from(text, ']', 0);
                        lemma_trim_len(text.subrange(close + 1, text.len() as int));
                    }
                    let rest = trim(text.subrange(close + 1, text.len() as int));
                    seq![(t, rest)] + tag_entries(rest)
                },
                None => seq![],
            },
            None => seq![],
        }
    } else {
        seq![]
    }
}

/// What has been read of an LRC file so far.
pub struct ScanState {
    pub entries: Seq<(i64, Seq<char>)>,
    pub plain: Seq<Seq<char>>,
    pub synced: bool,
}

/// Reads one line: a blank line is an empty plain line; a line with leading
/// time tags gives timed lines; any other line that does not start with `[`
/// is a plain line (trimmed), and one that does (a metadata tag) is skipped.
pub open spec fn scan_line(st: ScanState, line: Seq<char>) -> ScanState {
    let trimmed = trim(line);
    if trimmed.len() == 0 {
        ScanState { entries: st.entries, plain: st.plain.push(seq![]), synced: st.synced }
    } else {
        let es = tag_entries(trimmed);
        ScanState {
            entries: st.entries + es,
            plain: if es.len() == 0 && trimmed[0] != '[' {
                st.plain.push(trimmed)
            } else {
                st.plain
            },
            synced: st.synced || es.len() > 0,
        }
    }
}

/// Reads the lines `ls` in order.
pub open spec fn scan(ls: Seq<Seq<char>>) -> ScanState
    decreases ls.len(),
{
    if ls.len() == 0 {
        ScanState { entries: seq![], plain: seq![], synced: false }
    } else {
        scan_line(scan(ls.drop_last()), ls.last())
    }
}

/// Reading marks the lyrics synced exactly when it found a timed line.
pub proof fn lemma_scan_synced(ls: Seq<Seq<char>>)
    ensures
        scan(ls).synced <==> scan(ls).entries.len() > 0,
    decreases ls.len(),
{
    if ls.len() > 0 {
        lemma_scan_synced(ls.drop_last());
    }
}

fn timed_entries(text: &Vec<char>) -> (r: Vec<LrcLine>)
    ensures
        lines_view(r@) == tag_entries(text@),
{
    let mut out: Vec<LrcLine> = Vec::new();
    let mut cur: Vec<char> = copy_range(text, 0, text.len());
    assert(text@.subrange(0, text@.len() as int) =~= text@);
    loop
        invariant
            tag_entries(text@) == lines_view(out@) + tag_entries(cur@),
        ensures
            tag_entries(text@) == lines_view(out@),
        decreases cur@.len(),
    {
        if cur.len() == 0 || cur[0] != '[' {
            assert(lines_view(out@) + tag_entries(cur@) =~= lines_view(out@));
            break;
        }
        proof {
            lemma_find_from(cur@, ']', 0);
        }
        match find_char(&cur, ']', 0) {
            None => {
                assert(lines_view(out@) + tag_entries(cur@) =~= lines_view(out@));
                break;
            },
            Some(close) => {
                let tag = copy_range(&cur, 1, close);
                match parse_timestamp(&tag) {
                    None => {
                        assert(lines_view(out@) + tag_entries(cur@) =~= lines_view(out@));
                        break;
                    },
                    Some(t) => {
                        let after = copy_range(&cur, close + 1, cur.len());
                        let rest = trim_chars(&after);
                        proof {
                            lemma_trim_len(after@);
                        }
                        let line = LrcLine { time_us: t, text: string_of(&rest) };
                        let ghost old_out = out@;
                        out.push(line);
                        assert(lines_view(out@) =~= lines_view(old_out).push((t, rest@)));
                        assert(tag_entries(cur@) == seq![(t, rest@)] + tag_entries(rest@));
                        assert(lines_view(old_out) + (seq![(t, rest@)] + tag_entries(rest@))
                            =~= lines_view(out@) + tag_entries(rest@));
                        cur = rest;
                    },
                }
            },
        }
    }
    out
}

// ---------------------------------------------------------------------------
// Stable ordering by time
// ---------------------------------------------------------------------------

/// Whether a timed line starts at time `t`.
pub open spec fn at_time(t: i64) -> spec_fn((i64, Seq<char>)) -> bool {
    |e: (i64, Seq<char>)| e.0 == t
}

/// Timed lines in non-decreasing order of time.
pub open spec fn sorted_by_time(s: Seq<(i64, Seq<char>)>) -> bool {
    forall|i: int, j: int| 0 <= i <= j < s.len() ==> s[i].0 <= s[j].0
}

/// `out` is `inp` ordered by time, lines with equal times keeping their
/// order: it is sorted, and for every time it holds the lines of that time
/// in the order `inp` holds them.
pub open spec fn is_stable_sort_by_time(out: Seq<(i64, Seq<char>)>, inp: Seq<(i64, Seq<char>)>) -> bool {
    &&& out.len() == inp.len()
    &&& sorted_by_time(out)
    &&& forall|t: i64| #[trigger] out.filter(at_time(t)) == inp.filter(at_time(t))
}

proof fn lemma_insert_filter(s: Seq<(i64, Seq<char>)>, p: int, x: (i64, Seq<char>), t: i64)
    requires
        0 <= p <= s.len(),
        forall|i: int| 0 <= i < p ==> s[i].0 < x.0,
        forall|i: int| p <= i < s.len() ==> s[i].0 >= x.0,
    ensures
        s.insert(p, x).filter(at_time(t)) == (if x.0 == t {
            seq![x]
        } else {
            Seq::empty()
        }) + s.filter(at_time(t)),
{
    let a = s.subrange(0, p);
    let b = s.subrange(p, s.len() as int);
    assert(s.insert(p, x) =~= a + (seq![x] + b));
    assert(s =~= a + b);
    Seq::filter_distributes_over_add(a, seq![x] + b, at_time(t));
    b.lemma_filter_prepend(x, at_time(t));
    Seq::filter_distributes_over_add(a, b, at_time(t));
    if x.0 == t {
        assert(a.all(|y: (i64, Seq<char>)| !at_time(t)(y)));
        a.lemma_all_neg_filter_empty(at_time(t));
        assert(a.filter(at_time(t)) =~= Seq::<(i64, Seq<char>)>::empty());
        assert(s.insert(p, x).filter(at_time(t)) =~= seq![x] + s.filter(at_time(t)));
    } else {
        assert(s.insert(p, x).filter(at_time(t)) =~= Seq::<(i64, Seq<char>)>::empty() + s.filter(
            at_time(t),
        ));
    }
}

/// Orders timed lines by time; lines with equal times keep their order.
pub fn sort_by_time(v: Vec<LrcLine>) -> (r: Vec<LrcLine>)
    ensures
        is_stable_sort_by_time(lines_view(r@), lines_view(v@)),
{
    let ghost orig = lines_view(v@);
    let ghost n = orig.len();
    let mut v = v;
    let mut res: Vec<LrcLine> = Vec::new();
    assert(orig.subrange(n as int, n as int).filter(at_time(0)) =~= Seq::empty()) by {
        reveal(Seq::filter);
    }
    assert forall|t: i64|
        #[trigger] lines_view(res@).filter(at_time(t)) == orig.subrange(n as int, n as int).filter(
            at_time(t),
        ) by {
        reveal(Seq::filter);
        assert(lines_view(res@) =~= Seq::<(i64, Seq<char>)>::empty());
        assert(orig.subrange(n as int, n as int) =~= Seq::<(i64, Seq<char>)>::empty());
    }
    assert(orig.subrange(0, n as int) =~= lines_view(v@));
    while v.len() > 0
        invariant
            v@.len() <= n == orig.len(),
            lines_view(v@) == orig.subrange(0, v@.len() as int),
            is_stable_sort_by_time(lines_view(res@), orig.subrange(v@.len() as int, n as int)),
        decreases v@.len(),
    {
        let ghost k = (v@.len() - 1) as int;
        let ghost old_v = v@;
        let x = v.pop().unwrap();
        assert(x@ == orig[k]) by {
            assert(lines_view(old_v)[k] == orig.subrange(0, old_v.len() as int)[k]);
        }
        assert(lines_view(v@) =~= orig.subrange(0, k));
        let ghost r0 = lines_view(res@);
        let mut p: usize = 0;
        while p < res.len() && res[p].time_us < x.time_us
            invariant
                p <= res@.len(),
                r0 == lines_view(res@),
                forall|i: int| 0 <= i < p ==> r0[i].0 < x.time_us,
            decreases res@.len() - p,
        {
            p = p + 1;
        }
        assert forall|i: int| p <= i < r0.len() implies r0[i].0 >= x.time_us by {
            assert(r0[p as int].0 >= x.time_us);
        }
        let ghost xv = x@;
        res.insert(p, x);
        assert(lines_view(res@) =~= r0.insert(p as int, xv));
        let ghost rest = orig.subrange(k + 1, n as int);
        assert(orig.subrange(k, n as int) =~= seq![xv] + rest);
        assert forall|t: i64|
            #[trigger] lines_view(res@).filter(at_time(t)) == orig.subrange(k, n as int).filter(
                at_time(t),
            ) by {
            lemma_insert_filter(r0, p as int, xv, t);
            rest.lemma_filter_prepend(xv, at_time(t));
        }
        assert(sorted_by_time(lines_view(res@))) by {
            assert forall|i: int, j: int|
                0 <= i <= j < lines_view(res@).len() implies lines_view(res@)[i].0 <= lines_view(
                res@,
            )[j].0 by {
                let rr = r0.insert(p as int, xv);
                if i < p && j < p {
                } else if i < p && j == p {
                } else if i < p {
                    assert(rr[j] == r0[j - 1]);
                } else if i == p && j > p {
                    assert(rr[j] == r0[j - 1]);
                } else if i > p {
                    assert(rr[j] == r0[j - 1]);
                    assert(rr[i] == r0[i - 1]);
                }
            }
        }
    }
    res
}

// ---------------------------------------------------------------------------
// Parsing
// ---------------------------------------------------------------------------

/// What `parse_lrc` makes of the text `content`.
pub open spec fn parse_lrc_spec(content: Seq<char>, r: LyricsModel) -> bool {
    let st = scan(split_lines(content));
    &&& r.synced == st.synced
    &&& r.plain_lines == st.plain
    &&& if st.synced {
        is_stable_sort_by_time(r.lines, st.entries)
    } else {
        r.lines.len() == 0
    }
}

/// Parses LRC lyrics.
///
/// Each line is trimmed. A blank line becomes an empty plain line. A line
/// that starts with time tags (`[mm:ss.xx]`, `[mm:ss:xx]` or `[mm:ss]`) gives
/// one timed line per leading tag, whose text is what follows that tag
/// (trimmed); a line that starts with another bracketed tag (such as
/// `[ar: Artist]`) is skipped; any other line is a plain line. The lyrics are
/// synced when some line had a time tag; then the timed lines are ordered by
/// time (equal times keeping their order), and otherwise there are none.
///
/// Each part of a tag is a number as a float parser reads it: it may carry a
/// sign, a decimal point and an exponent (`[-1:00]`, `[1.5:00]`, `[1e1:00]`),
/// or be `inf`, `infinity` or `nan` in any case. Times are whole microseconds
/// in an `i64`: the minutes are read to 1e-7 minute, the seconds and their
/// fraction each truncated to the microsecond, so two tags less than a few
/// microseconds apart may compare equal and then keep their input order. A
/// part beyond `u64::MAX` units counts as `u64::MAX` units, and a time beyond
/// the range of `i64`, or infinite, is held to the matching end of it (a line
/// at `i64::MAX` starts only at a position of 2^63 microseconds). A tag whose
/// time is not-a-number (`[nan:00]`, `[inf:-inf]`) is not read as a time, so
/// its line counts as a metadata tag.
pub fn parse_lrc(lrc_content: &str) -> (r: LyricsData)
    ensures
        parse_lrc_spec(lrc_content@, r@),
        r.synced <==> r.lines@.len() > 0,
{
    let content = chars_of(lrc_content);
    let lines = lines_of(&content);
    let ghost ls = split_lines(lrc_content@);
    let mut entries: Vec<LrcLine> = Vec::new();
    let mut plain_lines: Vec<String> = Vec::new();
    let mut is_synced = false;
    let mut i: usize = 0;
    assert(ls.subrange(0, 0) =~= Seq::<Seq<char>>::empty());
    while i < lines.len()
        invariant
            i <= lines@.len() == ls.len(),
            vecs_view(lines@) == ls,
            lines_view(entries@) == scan(ls.subrange(0, i as int)).entries,
            strings_view(plain_lines@) == scan(ls.subrange(0, i as int)).plain,
            is_synced == scan(ls.subrange(0, i as int)).synced,
        decreases lines@.len() - i,
    {
        let ghost prev = ls.subrange(0, i as int);
        assert(ls.subrange(0, i + 1).drop_last() =~= prev);
        assert(ls.subrange(0, i + 1).last() == lines@[i as int]@);
        let trimmed = trim_chars(&lines[i]);
        if trimmed.len() == 0 {
            let ghost old_p = plain_lines@;
            plain_lines.push(String::new());
            assert(strings_view(plain_lines@) =~= strings_view(old_p).push(seq![]));
        } else {
            let found = timed_entries(&trimmed);
            let any = found.len() > 0;
            if !any && trimmed[0] != '[' {
                let ghost old_p = plain_lines@;
                plain_lines.push(string_of(&trimmed));
                assert(strings_view(plain_lines@) =~= strings_view(old_p).push(trimmed@));
            }
            let ghost old_e = lines_view(entries@);
            let mut found = found;
            entries.append(&mut found);
            assert(lines_view(entries@) =~= old_e + tag_entries(trimmed@));
            is_synced = is_synced || any;
        }
        i = i + 1;
    }
    assert(ls.subrange(0, lines@.len() as int) =~= ls);
    proof {
        lemma_scan_synced(ls);
    }
    if is_synced {
        let sorted = sort_by_time(entries);
        LyricsData { synced: true, lines: sorted, plain_lines }
    } else {
        let r = LyricsData { synced: false, lines: Vec::new(), plain_lines };
        assert(r@.lines =~= Seq::<(i64, Seq<char>)>::empty());
        r
    }
}


// ---------------------------------------------------------------------------
// Laws of parsing
// ---------------------------------------------------------------------------

/// A plain line as `parse_lrc` keeps it: trimmed, and not starting with `[`.
pub open spec fn clean_plain_line(s: Seq<char>) -> bool {
    &&& trim(s) == s
    &&& s.len() > 0 ==> s[0] != '['
}

proof fn lemma_tag_entries_trimmed(text: Seq<char>)
    ensures
        forall|i: int|
            0 <= i < tag_entries(text).len() ==> trim(#[trigger] tag_entries(text)[i].1)
                == tag_entries(text)[i].1,
    decreases text.len(),
{
    if text.len() > 0 && text[0] == '[' {
        lemma_find_from(text, ']', 0);
        match find_from(text, ']', 0) {
            Some(close) => match timestamp_us(text.subrange(1, close)) {
                Some(t) => {
                    let after = text.subrange(close + 1, text.len() as int);
                    let rest = trim(after);
                    lemma_trim_len(after);
                    lemma_trim_idempotent(after);
                    lemma_tag_entries_trimmed(rest);
                    let es = tag_entries(text);
                    assert(es == seq![(t, rest)] + tag_entries(rest));
                    assert forall|i: int| 0 <= i < es.len() implies trim(#[trigger] es[i].1)
                        == es[i].1 by {
                        if i > 0 {
                            assert(es[i] == tag_entries(rest)[i - 1]);
                        }
                    }
                },
                None => {},
            },
            None => {},
        }
    }
}

proof fn lemma_scan_trimmed(ls: Seq<Seq<char>>)
    ensures
        forall|i: int|
            0 <= i < scan(ls).entries.len() ==> trim(#[trigger] scan(ls).entries[i].1)
                == scan(ls).entries[i].1,
        forall|j: int| 0 <= j < scan(ls).plain.len() ==> clean_plain_line(#[trigger] scan(ls).plain[j]),
    decreases ls.len(),
{
    if ls.len() > 0 {
        lemma_scan_trimmed(ls.drop_last());
        let st = scan(ls.drop_last());
        let trimmed = trim(ls.last());
        let now = scan(ls);
        lemma_trim_idempotent(ls.last());
        lemma_trim_fixed(seq![]);
        if trimmed.len() > 0 {
            lemma_tag_entries_trimmed(trimmed);
            let es = tag_entries(trimmed);
            assert(now.entries == st.entries + es);
            assert forall|i: int| 0 <= i < now.entries.len() implies trim(
                #[trigger] now.entries[i].1,
            ) == now.entries[i].1 by {
                if i < st.entries.len() {
                    assert(now.entries[i] == st.entries[i]);
                } else {
                    assert(now.entries[i] == es[i - st.entries.len()]);
                }
            }
        }
        assert forall|j: int| 0 <= j < now.plain.len() implies clean_plain_line(
            #[trigger] now.plain[j],
        ) by {
            if j < st.plain.len() {
                assert(now.plain[j] == st.plain[j]);
            }
        }
    }
}

proof fn lemma_stable_sort_members(out: Seq<(i64, Seq<char>)>, inp: Seq<(i64, Seq<char>)>, i: int)
    requires
        is_stable_sort_by_time(out, inp),
        0 <= i < out.len(),
    ensures
        inp.contains(out[i]),
{
    let t = out[i].0;
    out.lemma_filter_contains(at_time(t), i);
    assert(out.filter(at_time(t)) == inp.filter(at_time(t)));
    inp.lemma_filter_contains_rev(at_time(t), out[i]);
}

/// Every timed line's text and every plain line that `parse_lrc` gives is
/// trimmed, and no plain line starts with `[`.
pub proof fn law_parse_lrc_trimmed(content: Seq<char>, r: LyricsModel)
    requires
        parse_lrc_spec(content, r),
    ensures
        forall|i: int| 0 <= i < r.lines.len() ==> trim(#[trigger] r.lines[i].1) == r.lines[i].1,
        forall|j: int| 0 <= j < r.plain_lines.len() ==> clean_plain_line(#[trigger] r.plain_lines[j]),
{
    let st = scan(split_lines(content));
    lemma_scan_trimmed(split_lines(content));
    assert forall|i: int| 0 <= i < r.lines.len() implies trim(#[trigger] r.lines[i].1)
        == r.lines[i].1 by {
        if st.synced {
            lemma_stable_sort_members(r.lines, st.entries, i);
            let k = choose|k: int| 0 <= k < st.entries.len() && st.entries[k] == r.lines[i];
            assert(trim(st.entries[k].1) == st.entries[k].1);
        }
    }
}

/// The timed lines that one line of an LRC file gives.
pub open spec fn line_entries(line: Seq<char>) -> Seq<(i64, Seq<char>)> {
    if trim(line).len() == 0 {
        seq![]
    } else {
        tag_entries(trim(line))
    }
}

/// The timed lines of all of `ls`, as a bag.
pub open spec fn entries_bag(ls: Seq<Seq<char>>) -> Multiset<(i64, Seq<char>)>
    decreases ls.len(),
{
    if ls.len() == 0 {
        Multiset::empty()
    } else {
        entries_bag(ls.drop_last()).add(line_entries(ls.last()).to_multiset())
    }
}

proof fn lemma_scan_entries_bag(ls: Seq<Seq<char>>)
    ensures
        scan(ls).entries.to_multiset() == entries_bag(ls),
    decreases ls.len(),
{
    broadcast use vstd::multiset::group_multiset_axioms;

    if ls.len() == 0 {
        assert(scan(ls).entries.to_multiset() =~= Multiset::empty());
    } else {
        lemma_scan_entries_bag(ls.drop_last());
        let st = scan(ls.drop_last());
        assert(scan(ls).entries == st.entries + line_entries(ls.last()));
        vstd::seq_lib::lemma_multiset_commutative(st.entries, line_entries(ls.last()));
    }
}

proof fn lemma_entries_bag_remove(ls: Seq<Seq<char>>, k: int)
    requires
        0 <= k < ls.len(),
    ensures
        entries_bag(ls) == entries_bag(ls.remove(k)).add(line_entries(ls[k]).to_multiset()),
    decreases ls.len(),
{
    broadcast use vstd::multiset::group_multiset_axioms;

    if k == ls.len() - 1 {
        assert(ls.remove(k) =~= ls.drop_last());
    } else {
        lemma_entries_bag_remove(ls.drop_last(), k);
        assert(ls.remove(k).drop_last() =~= ls.drop_last().remove(k));
        assert(ls.remove(k).last() == ls.last());
        assert(entries_bag(ls) =~= entries_bag(ls.remove(k)).add(
            line_entries(ls[k]).to_multiset(),
        ));
    }
}

proof fn lemma_entries_bag_permutation(a: Seq<Seq<char>>, b: Seq<Seq<char>>)
    requires
        a.to_multiset() == b.to_multiset(),
    ensures
        entries_bag(a) == entries_bag(b),
    decreases a.len(),
{
    broadcast use vstd::multiset::group_multiset_axioms;
    broadcast use vstd::seq_lib::group_to_multiset_ensures;

    if a.len() == 0 {
        assert(a.to_multiset().len() == 0);
        assert(b.to_multiset().len() == b.len());
        assert(b =~= Seq::<Seq<char>>::empty());
        assert(a =~= Seq::<Seq<char>>::empty());
    } else {
        let x = a.last();
        assert(a =~= a.drop_last().push(x));
        assert(a.to_multiset() == a.drop_last().to_multiset().insert(x));
        assert(b.to_multiset().count(x) > 0);
        assert(b.contains(x));
        let k = choose|k: int| 0 <= k < b.len() && b[k] == x;
        assert(b.remove(k).to_multiset() == b.to_multiset().remove(x));
        assert(b.remove(k).to_multiset() =~= a.drop_last().to_multiset());
        lemma_entries_bag_permutation(a.drop_last(), b.remove(k));
        lemma_entries_bag_remove(b, k);
    }
}

/// No two timed lines start at the same time.
pub open spec fn distinct_times(e: Seq<(i64, Seq<char>)>) -> bool {
    forall|i: int, j: int| 0 <= i < j < e.len() ==> e[i].0 != e[j].0
}

proof fn lemma_distinct_times_transfer(e1: Seq<(i64, Seq<char>)>, e2: Seq<(i64, Seq<char>)>)
    requires
        distinct_times(e1),
        e1.to_multiset() == e2.to_multiset(),
    ensures
        distinct_times(e2),
{
    broadcast use vstd::seq_lib::group_to_multiset_ensures;

    assert(e1.no_duplicates()) by {
        assert forall|i: int, j: int|
            (0 <= i < e1.len() && 0 <= j < e1.len() && i != j) implies e1[i] != e1[j] by {
            if i < j {
                assert(e1[i].0 != e1[j].0);
            } else {
                assert(e1[j].0 != e1[i].0);
            }
        }
    }
    e1.lemma_multiset_has_no_duplicates();
    e2.lemma_multiset_has_no_duplicates_conv();
    assert forall|i: int, j: int| 0 <= i < j < e2.len() implies e2[i].0 != e2[j].0 by {
        assert(e2.contains(e2[i]));
        assert(e2.contains(e2[j]));
        assert(e2.to_multiset().count(e2[i]) > 0);
        assert(e2.to_multiset().count(e2[j]) > 0);
        assert(e1.to_multiset().count(e2[i]) > 0);
        assert(e1.to_multiset().count(e2[j]) > 0);
        assert(e1.contains(e2[i]));
        assert(e1.contains(e2[j]));
        let a = choose|a: int| 0 <= a < e1.len() && e1[a] == e2[i];
        let b = choose|b: int| 0 <= b < e1.len() && e1[b] == e2[j];
        assert(e2[i] != e2[j]);
        if a < b {
            assert(e1[a].0 != e1[b].0);
        } else {
            assert(e1[b].0 != e1[a].0);
        }
    }
}

proof fn lemma_distinct_filter(e: Seq<(i64, Seq<char>)>, t: i64)
    requires
        distinct_times(e),
    ensures
        (forall|i: int| 0 <= i < e.len() ==> e[i].0 != t) ==> e.filter(at_time(t)) == Seq::<
            (i64, Seq<char>),
        >::empty(),
        forall|i: int| 0 <= i < e.len() && e[i].0 == t ==> e.filter(at_time(t)) == seq![e[i]],
    decreases e.len(),
{
    if e.len() == 0 {
        e.lemma_filter_len(at_time(t));
        assert(e.filter(at_time(t)) =~= Seq::<(i64, Seq<char>)>::empty());
    } else {
        let rest = e.drop_first();
        assert(distinct_times(rest)) by {
            assert forall|i: int, j: int| 0 <= i < j < rest.len() implies rest[i].0 != rest[j].0 by {
                assert(e[i + 1].0 != e[j + 1].0);
            }
        }
        lemma_distinct_filter(rest, t);
        assert(e =~= seq![e[0]] + rest);
        rest.lemma_filter_prepend(e[0], at_time(t));
        if e[0].0 == t {
            assert forall|i: int| 0 <= i < rest.len() implies rest[i].0 != t by {
                assert(e[0].0 != e[i + 1].0);
            }
            assert(e.filter(at_time(t)) =~= seq![e[0]]);
            assert forall|i: int| 0 <= i < e.len() && e[i].0 == t implies e.filter(at_time(t))
                == seq![e[i]] by {
                if i > 0 {
                    assert(e[0].0 != e[i].0);
                }
            }
        } else {
            assert(e.filter(at_time(t)) == rest.filter(at_time(t)));
            assert forall|i: int| 0 <= i < e.len() && e[i].0 == t implies e.filter(at_time(t))
                == seq![e[i]] by {
                assert(i > 0);
                assert(rest[i - 1] == e[i]);
            }
            if forall|i: int| 0 <= i < e.len() ==> e[i].0 != t {
                assert forall|i: int| 0 <= i < rest.len() implies rest[i].0 != t by {
                    assert(rest[i] == e[i + 1]);
                }
            }
        }
    }
}

proof fn lemma_sorted_filters_equal(s1: Seq<(i64, Seq<char>)>, s2: Seq<(i64, Seq<char>)>)
    requires
        sorted_by_time(s1),
        sorted_by_time(s2),
        forall|t: i64| #[trigger] s1.filter(at_time(t)) == s2.filter(at_time(t)),
    ensures
        s1 == s2,
    decreases s1.len() + s2.len(),
{
    if s1.len() == 0 && s2.len() == 0 {
        assert(s1 =~= s2);
    } else if s1.len() == 0 {
        s2.lemma_filter_contains(at_time(s2[0].0), 0);
        s1.lemma_filter_len(at_time(s2[0].0));
        assert(s1.filter(at_time(s2[0].0)) == s2.filter(at_time(s2[0].0)));
    } else if s2.len() == 0 {
        s1.lemma_filter_contains(at_time(s1[0].0), 0);
        s2.lemma_filter_len(at_time(s1[0].0));
        assert(s1.filter(at_time(s1[0].0)) == s2.filter(at_time(s1[0].0)));
    } else {
        let t1 = s1[0].0;
        let t2 = s2[0].0;
        s1.lemma_filter_contains(at_time(t1), 0);
        assert(s1.filter(at_time(t1)) == s2.filter(at_time(t1)));
        s2.lemma_filter_contains_rev(at_time(t1), s1[0]);
        let j = choose|j: int| 0 <= j < s2.len() && s2[j] == s1[0];
        assert(s2[0].0 <= s2[j].0);
        s2.lemma_filter_contains(at_time(t2), 0);
        assert(s1.filter(at_time(t2)) == s2.filter(at_time(t2)));
        s1.lemma_filter_contains_rev(at_time(t2), s2[0]);
        let i = choose|i: int| 0 <= i < s1.len() && s1[i] == s2[0];
        assert(s1[0].0 <= s1[i].0);
        assert(t1 == t2);
        let r1 = s1.drop_first();
        let r2 = s2.drop_first();
        assert(s1 =~= seq![s1[0]] + r1);
        assert(s2 =~= seq![s2[0]] + r2);
        assert forall|t: i64| #[trigger] r1.filter(at_time(t)) == r2.filter(at_time(t)) by {
            r1.lemma_filter_prepend(s1[0], at_time(t));
            r2.lemma_filter_prepend(s2[0], at_time(t));
            assert(s1.filter(at_time(t)) == s2.filter(at_time(t)));
            if t == t1 {
                assert(r1.filter(at_time(t)) =~= s1.filter(at_time(t)).drop_first());
                assert(r2.filter(at_time(t)) =~= s2.filter(at_time(t)).drop_first());
            }
        }
        r1.lemma_filter_prepend(s1[0], at_time(t1));
        r2.lemma_filter_prepend(s2[0], at_time(t1));
        assert(s1.filter(at_time(t1)) == s2.filter(at_time(t1)));
        assert(s1.filter(at_time(t1))[0] == s1[0]);
        assert(s2.filter(at_time(t1))[0] == s2[0]);
        lemma_sorted_filters_equal(r1, r2);
    }
}

/// The order of the lines of an LRC text does not matter when the times its
/// tags give are pairwise distinct: the same lines in another order give the
/// same synced flag and the same timed lines.
pub proof fn law_parse_lrc_reorder(c1: Seq<char>, c2: Seq<char>, r1: LyricsModel, r2: LyricsModel)
    requires
        split_lines(c2).to_multiset() == split_lines(c1).to_multiset(),
        distinct_times(scan(split_lines(c1)).entries),
        parse_lrc_spec(c1, r1),
        parse_lrc_spec(c2, r2),
    ensures
        r1.synced == r2.synced,
        r1.lines == r2.lines,
{
    broadcast use vstd::seq_lib::group_to_multiset_ensures;

    let e1 = scan(split_lines(c1)).entries;
    let e2 = scan(split_lines(c2)).entries;
    lemma_scan_entries_bag(split_lines(c1));
    lemma_scan_entries_bag(split_lines(c2));
    lemma_entries_bag_permutation(split_lines(c1), split_lines(c2));
    assert(e1.to_multiset() == e2.to_multiset());
    assert(e1.len() == e1.to_multiset().len());
    assert(e2.len() == e2.to_multiset().len());
    assert(e1.len() == e2.len());
    lemma_scan_synced(split_lines(c1));
    lemma_scan_synced(split_lines(c2));
    if r1.synced {
        lemma_distinct_times_transfer(e1, e2);
        assert forall|t: i64| #[trigger] r1.lines.filter(at_time(t)) == r2.lines.filter(at_time(t)) by {
            lemma_distinct_filter(e1, t);
            lemma_distinct_filter(e2, t);
            assert(r1.lines.filter(at_time(t)) == e1.filter(at_time(t)));
            assert(r2.lines.filter(at_time(t)) == e2.filter(at_time(t)));
            if exists|i: int| 0 <= i < e1.len() && e1[i].0 == t {
                let i = choose|i: int| 0 <= i < e1.len() && e1[i].0 == t;
                assert(e1.contains(e1[i]));
                assert(e1.to_multiset().count(e1[i]) > 0);
                assert(e2.to_multiset().count(e1[i]) > 0);
                assert(e2.contains(e1[i]));
                let j = choose|j: int| 0 <= j < e2.len() && e2[j] == e1[i];
                assert(e2[j].0 == t);
            } else if exists|j: int| 0 <= j < e2.len() && e2[j].0 == t {
                let j = choose|j: int| 0 <= j < e2.len() && e2[j].0 == t;
                assert(e2.contains(e2[j]));
                assert(e2.to_multiset().count(e2[j]) > 0);
                assert(e1.to_multiset().count(e2[j]) > 0);
                assert(e1.contains(e2[j]));
                let i = choose|i: int| 0 <= i < e1.len() && e1[i] == e2[j];
                assert(e1[i].0 == t);
            }
        }
        lemma_sorted_filters_equal(r1.lines, r2.lines);
    } else {
        assert(r1.lines =~= r2.lines);
    }
}

} // verus!
