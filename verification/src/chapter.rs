//! Hierarchical chapter numbers ("1.2.3.") and the chapter content model:
//! parsing and rendering of chapter numbers, the ordering that places suffix
//! chapters last, and the table-of-contents rendering of a chapter tree.
use vstd::prelude::*;

verus! {

/// A section number like "1.2.3.": the path of 1-based positions from the
/// root of the book down to the chapter. A first component of `-1` marks a
/// suffix chapter (appendix), a first component of `0` a prefix chapter.
#[derive(Debug, Clone, Default, Hash, PartialEq, Eq)]
pub struct ChapterNumber(pub Vec<i64>);

impl View for ChapterNumber {
    type V = Seq<i64>;

    open spec fn view(&self) -> Seq<i64> {
        self.0@
    }
}

/// The one way parsing a chapter number can fail: the text is not a
/// dot-separated list of integers that fit in `i64`.
#[derive(Debug, Clone, Copy, PartialEq, Eq, Structural)]
pub enum ChapterNumberError {
    Invalid,
}

/// Three-way comparison result for chapter numbers.
#[derive(Debug, Clone, Copy, PartialEq, Eq, Structural)]
pub enum ChapterOrdering {
    Before,
    Same,
    After,
}

pub open spec fn is_digit(c: char) -> bool {
    48 <= c as int && c as int <= 57
}

pub open spec fn all_digits(s: Seq<char>) -> bool {
    forall|j: int| 0 <= j < s.len() ==> is_digit(#[trigger] s[j])
}

/// Value of a digit string, most significant digit first.
pub open spec fn digits_val(s: Seq<char>) -> int
    decreases s.len(),
{
    if s.len() == 0 {
        0
    } else {
        digits_val(s.drop_last()) * 10 + (s.last() as int - 48)
    }
}

/// A token between dots: an optional sign, then at least one digit, with a
/// value that fits in `i64`.
pub open spec fn spec_valid_token(s: Seq<char>) -> bool {
    if s.len() > 0 && s[0] == '-' {
        s.len() >= 2 && all_digits(s.drop_first()) && digits_val(s.drop_first())
            <= 0x8000_0000_0000_0000
    } else if s.len() > 0 && s[0] == '+' {
        s.len() >= 2 && all_digits(s.drop_first()) && digits_val(s.drop_first())
            <= 0x7fff_ffff_ffff_ffff
    } else {
        s.len() >= 1 && all_digits(s) && digits_val(s) <= 0x7fff_ffff_ffff_ffff
    }
}

pub open spec fn spec_token_value(s: Seq<char>) -> int {
    if s.len() > 0 && s[0] == '-' {
        -digits_val(s.drop_first())
    } else if s.len() > 0 && s[0] == '+' {
        digits_val(s.drop_first())
    } else {
        digits_val(s)
    }
}

/// Length of the prefix of `s` before the first `'.'` (all of `s` if none).
pub open spec fn prefix_len(s: Seq<char>) -> nat
    decreases s.len(),
{
    if s.len() == 0 {
        0
    } else if s[0] == '.' {
        0
    } else {
        1 + prefix_len(s.drop_first())
    }
}

proof fn lemma_prefix_len_le(s: Seq<char>)
    ensures
        prefix_len(s) <= s.len(),
        prefix_len(s) < s.len() ==> s[prefix_len(s) as int] == '.',
        forall|j: int| 0 <= j < prefix_len(s) ==> s[j] != '.',
    decreases s.len(),
{
    if s.len() > 0 && s[0] != '.' {
        lemma_prefix_len_le(s.drop_first());
        assert forall|j: int| 0 <= j < prefix_len(s) implies s[j] != '.' by {
            if j > 0 {
                assert(s.drop_first()[j - 1] == s[j]);
            }
        }
    }
}

/// `prefix_len` is pinned down by its characteristic properties.
proof fn lemma_prefix_len_is(s: Seq<char>, m: int)
    requires
        0 <= m <= s.len(),
        forall|j: int| 0 <= j < m ==> s[j] != '.',
        m < s.len() ==> s[m] == '.',
    ensures
        prefix_len(s) == m,
    decreases s.len(),
{
    if s.len() > 0 && m > 0 {
        assert(s[0] != '.');
        assert(forall|j: int| 0 <= j < m - 1 ==> #[trigger] s.drop_first()[j] == s[j + 1]);
        lemma_prefix_len_is(s.drop_first(), m - 1);
    }
}

/// The text is a chapter number: a possibly empty dot-separated list of
/// integer tokens, where the final dot may be left out ("1.2." and "1.2"
/// both stand for the same number).
pub open spec fn spec_valid_number(s: Seq<char>) -> bool
    decreases s.len(),
    via spec_valid_number_decreases
{
    if s.len() == 0 {
        true
    } else {
        let k = prefix_len(s) as int;
        spec_valid_token(s.subrange(0, k)) && (k == s.len() || spec_valid_number(
            s.subrange(k + 1, s.len() as int),
        ))
    }
}

#[via_fn]
proof fn spec_valid_number_decreases(s: Seq<char>) {
    lemma_prefix_len_le(s);
}

/// The components a valid chapter number text denotes.
pub open spec fn spec_number_value(s: Seq<char>) -> Seq<i64>
    decreases s.len(),
    via spec_number_value_decreases
{
    if s.len() == 0 {
        Seq::empty()
    } else {
        let k = prefix_len(s) as int;
        let first = seq![spec_token_value(s.subrange(0, k)) as i64];
        if k == s.len() {
            first
        } else {
            first + spec_number_value(s.subrange(k + 1, s.len() as int))
        }
    }
}

#[via_fn]
proof fn spec_number_value_decreases(s: Seq<char>) {
    lemma_prefix_len_le(s);
}

proof fn lemma_digits_val_nonneg(s: Seq<char>)
    requires
        all_digits(s),
    ensures
        digits_val(s) >= 0,
    decreases s.len(),
{
    if s.len() > 0 {
        assert(all_digits(s.drop_last())) by {
            assert(forall|j: int|
                0 <= j < s.len() - 1 ==> #[trigger] s.drop_last()[j] == s[j]);
        }
        lemma_digits_val_nonneg(s.drop_last());
    }
}

/// Extending a digit string never shrinks its value.
proof fn lemma_digits_val_prefix_le(s: Seq<char>, m: int)
    requires
        all_digits(s),
        0 <= m <= s.len(),
    ensures
        digits_val(s.subrange(0, m)) <= digits_val(s),
    decreases s.len() - m,
{
    if m < s.len() {
        let t = s.subrange(0, m + 1);
        assert(t.drop_last() =~= s.subrange(0, m));
        assert(all_digits(t));
        assert(all_digits(s.subrange(0, m))) by {
            assert(forall|j: int|
                0 <= j < m ==> #[trigger] s.subrange(0, m)[j] == s[j]);
        }
        lemma_digits_val_nonneg(s.subrange(0, m));
        assert(digits_val(t) == digits_val(s.subrange(0, m)) * 10 + (t.last() as int - 48));
        assert(digits_val(s.subrange(0, m)) * 10 >= digits_val(s.subrange(0, m)));
        assert(t.last() as int - 48 >= 0);
        lemma_digits_val_prefix_le(s, m + 1);
        assert(s.subrange(0, s.len() as int) =~= s);
    } else {
        assert(s.subrange(0, m) =~= s);
    }
}

/// Index of the first `'.'` at or after `i`, or the text's length.
fn token_end(s: &str, i: usize) -> (k: usize)
    requires
        i <= s@.len(),
    ensures
        i <= k <= s@.len(),
        forall|j: int| i <= j < k ==> s@[j] != '.',
        k < s@.len() ==> s@[k as int] == '.',
{
    let n = s.unicode_len();
    let mut k = i;
    while k < n && s.get_char(k) != '.'
        invariant
            i <= k <= n,
            n == s@.len(),
            forall|j: int| i <= j < k ==> s@[j] != '.',
        decreases n - k,
    {
        k = k + 1;
    }
    k
}

/// Parses the token `s[i..k]` as an `i64`.
fn parse_token(s: &str, i: usize, k: usize) -> (r: Result<i64, ChapterNumberError>)
    requires
        i <= k <= s@.len(),
    ensures
        r is Ok <==> spec_valid_token(s@.subrange(i as int, k as int)),
        r matches Ok(v) ==> v as int == spec_token_value(s@.subrange(i as int, k as int)),
{
    let ghost tok = s@.subrange(i as int, k as int);
    let mut neg = false;
    let mut signed = false;
    if k > i {
        let first = s.get_char(i);
        if first == '-' {
            neg = true;
            signed = true;
        } else if first == '+' {
            signed = true;
        }
    }
    let start = if signed { i + 1 } else { i };
    let ghost digits = s@.subrange(start as int, k as int);
    proof {
        if signed {
            assert(tok[0] == s@[i as int]);
            assert(tok.drop_first() =~= digits);
        } else {
            assert(tok =~= digits);
            if tok.len() > 0 {
                assert(tok[0] == s@[i as int]);
                assert(tok[0] != '-' && tok[0] != '+');
            }
        }
    }
    if start == k {
        return Err(ChapterNumberError::Invalid);
    }
    let mut mag: u128 = 0;
    let mut j = start;
    while j < k
        invariant
            i <= start <= j <= k <= s@.len(),
            start < k,
            digits == s@.subrange(start as int, k as int),
            tok == s@.subrange(i as int, k as int),
            neg ==> signed,
            neg ==> tok.len() >= 2 && tok[0] == '-',
            signed && !neg ==> tok.len() >= 2 && tok[0] == '+',
            signed ==> start == i + 1 && tok.drop_first() == digits,
            !signed ==> start == i && tok == digits && (tok.len() == 0 || (tok[0] != '-'
                && tok[0] != '+')),
            all_digits(s@.subrange(start as int, j as int)),
            mag == digits_val(s@.subrange(start as int, j as int)),
            mag <= 0x8000_0000_0000_0000,
        decreases k - j,
    {
        let c = s.get_char(j);
        let cv = c as u32;
        if cv < 48 || cv > 57 {
            proof {
                assert(digits[j - start] == c);
                assert(!is_digit(c));
                assert(!all_digits(digits));
                assert(!spec_valid_token(tok));
            }
            return Err(ChapterNumberError::Invalid);
        }
        let d = (cv - 48) as u128;
        let next = mag * 10 + d;
        proof {
            let pre = s@.subrange(start as int, j as int + 1);
            assert(pre.drop_last() =~= s@.subrange(start as int, j as int));
            assert(pre.last() == c);
            assert(digits_val(pre) == next);
            assert(all_digits(pre));
        }
        if next > 0x8000_0000_0000_0000u128 {
            proof {
                if all_digits(digits) {
                    assert(s@.subrange(start as int, j as int + 1) =~= digits.subrange(
                        0,
                        j - start + 1,
                    ));
                    lemma_digits_val_prefix_le(digits, j - start + 1);
                    assert(digits_val(digits) >= next);
                }
                assert(!spec_valid_token(tok));
            }
            return Err(ChapterNumberError::Invalid);
        }
        mag = next;
        j = j + 1;
    }
    proof {
        assert(s@.subrange(start as int, j as int) =~= digits);
    }
    if neg {
        if mag == 0x8000_0000_0000_0000u128 {
            Ok(i64::MIN)
        } else {
            Ok(-(mag as i64))
        }
    } else {
        if mag > 0x7fff_ffff_ffff_ffffu128 {
            Err(ChapterNumberError::Invalid)
        } else {
            Ok(mag as i64)
        }
    }
}

/// Parses the tail `s[i..]`, pushing the components onto `out`.
fn parse_rest(s: &str, i: usize, out: &mut Vec<i64>) -> (ok: bool)
    requires
        i <= s@.len(),
    ensures
        ok <==> spec_valid_number(s@.subrange(i as int, s@.len() as int)),
        ok ==> final(out)@ == old(out)@ + spec_number_value(s@.subrange(i as int, s@.len() as int)),
    decreases s@.len() - i,
{
    let ghost suffix = s@.subrange(i as int, s@.len() as int);
    let n = s.unicode_len();
    if i == n {
        return true;
    }
    let k = token_end(s, i);
    proof {
        assert(forall|j: int| 0 <= j < k - i ==> #[trigger] suffix[j] == s@[i + j]);
        assert((k - i) < suffix.len() ==> suffix[k - i] == s@[k as int]);
        lemma_prefix_len_is(suffix, k - i);
        assert(suffix.subrange(0, k - i) =~= s@.subrange(i as int, k as int));
    }
    match parse_token(s, i, k) {
        Err(_) => false,
        Ok(v) => {
            out.push(v);
            if k == n {
                true
            } else {
                let ghost rest = s@.subrange(k + 1, s@.len() as int);
                proof {
                    assert(suffix.subrange(k - i + 1, suffix.len() as int) =~= rest);
                }
                parse_rest(s, k + 1, out)
            }
        },
    }
}

impl ChapterNumber {
    /// Parses a dot-separated chapter number such as "1.2.3." or "-1.3.8.".
    pub fn from_str(s: &str) -> (r: Result<ChapterNumber, ChapterNumberError>)
        ensures
            r is Ok <==> spec_valid_number(s@),
            r matches Ok(n) ==> n@ == spec_number_value(s@),
    {
        let mut out: Vec<i64> = Vec::new();
        proof {
            assert(s@.subrange(0, s@.len() as int) =~= s@);
        }
        if parse_rest(s, 0, &mut out) {
            Ok(ChapterNumber(out))
        } else {
            Err(ChapterNumberError::Invalid)
        }
    }

    /// An exact copy.
    pub fn duplicate(&self) -> (r: ChapterNumber)
        ensures
            r@ == self@,
    {
        let mut out: Vec<i64> = Vec::new();
        let mut i: usize = 0;
        while i < self.0.len()
            invariant
                i <= self.0.len(),
                out@ == self.0@.subrange(0, i as int),
            decreases self.0.len() - i,
        {
            out.push(self.0[i]);
            i = i + 1;
        }
        proof {
            assert(self.0@.subrange(0, self.0@.len() as int) =~= self.0@);
        }
        ChapterNumber(out)
    }

    /// Structural equality of the two component lists.
    pub fn same_as(&self, other: &ChapterNumber) -> (r: bool)
        ensures
            r <==> self@ == other@,
    {
        if self.0.len() != other.0.len() {
            proof {
                assert(self@ != other@);
            }
            return false;
        }
        let mut i: usize = 0;
        while i < self.0.len()
            invariant
                i <= self.0.len(),
                self.0.len() == other.0.len(),
                forall|j: int| 0 <= j < i ==> self@[j] == other@[j],
            decreases self.0.len() - i,
        {
            if self.0[i] != other.0[i] {
                proof {
                    assert(self@[i as int] != other@[i as int]);
                }
                return false;
            }
            i = i + 1;
        }
        proof {
            assert(self@ =~= other@);
        }
        true
    }
}

/// Plain lexicographic order on the component lists.
pub open spec fn lex_order(a: Seq<i64>, b: Seq<i64>) -> ChapterOrdering
    decreases a.len(),
{
    if a.len() == 0 && b.len() == 0 {
        ChapterOrdering::Same
    } else if a.len() == 0 {
        ChapterOrdering::Before
    } else if b.len() == 0 {
        ChapterOrdering::After
    } else if a[0] < b[0] {
        ChapterOrdering::Before
    } else if a[0] > b[0] {
        ChapterOrdering::After
    } else {
        lex_order(a.drop_first(), b.drop_first())
    }
}

/// The book order of chapter numbers: suffix chapters (first component -1)
/// come after every ordinary chapter; within each group the order is
/// lexicographic.
pub open spec fn chapter_order(a: Seq<i64>, b: Seq<i64>) -> ChapterOrdering {
    if a.len() > 0 && b.len() > 0 {
        if (a[0] == -1) == (b[0] == -1) {
            lex_order(a, b)
        } else if a[0] != -1 {
            ChapterOrdering::Before
        } else {
            ChapterOrdering::After
        }
    } else {
        lex_order(a, b)
    }
}

impl ChapterNumber {
    /// Compares two chapter numbers in book order.
    pub fn cmp_to(&self, other: &ChapterNumber) -> (r: ChapterOrdering)
        ensures
            r == chapter_order(self@, other@),
    {
        let a = &self.0;
        let b = &other.0;
        if a.len() > 0 && b.len() > 0 {
            let sa = a[0] == -1;
            let sb = b[0] == -1;
            if sa != sb {
                if !sa {
                    return ChapterOrdering::Before;
                } else {
                    return ChapterOrdering::After;
                }
            }
        }
        proof {
            assert(a@.subrange(0, a@.len() as int) =~= a@);
            assert(b@.subrange(0, b@.len() as int) =~= b@);
        }
        let mut i: usize = 0;
        loop
            invariant
                i <= a.len(),
                i <= b.len(),
                lex_order(a@, b@) == lex_order(
                    a@.subrange(i as int, a@.len() as int),
                    b@.subrange(i as int, b@.len() as int),
                ),
                chapter_order(self@, other@) == lex_order(a@, b@),
            decreases a.len() - i,
        {
            let ghost ra = a@.subrange(i as int, a@.len() as int);
            let ghost rb = b@.subrange(i as int, b@.len() as int);
            if i == a.len() || i == b.len() {
                if i == a.len() && i == b.len() {
                    proof {
                        assert(ra.len() == 0 && rb.len() == 0);
                    }
                    return ChapterOrdering::Same;
                } else if i == a.len() {
                    proof {
                        assert(ra.len() == 0 && rb.len() > 0);
                    }
                    return ChapterOrdering::Before;
                } else {
                    proof {
                        assert(rb.len() == 0 && ra.len() > 0);
                    }
                    return ChapterOrdering::After;
                }
            }
            proof {
                assert(ra[0] == a@[i as int] && rb[0] == b@[i as int]);
            }
            if a[i] < b[i] {
                return ChapterOrdering::Before;
            }
            if a[i] > b[i] {
                return ChapterOrdering::After;
            }
            proof {
                assert(ra[0] == a@[i as int] && rb[0] == b@[i as int]);
                assert(ra.drop_first() =~= a@.subrange(i + 1, a@.len() as int));
                assert(rb.drop_first() =~= b@.subrange(i + 1, b@.len() as int));
            }
            i = i + 1;
        }
    }
}

pub open spec fn digit_char(d: int) -> char {
    (48 + d) as char
}

/// Decimal digits of `n`, most significant first.
pub open spec fn spec_digits_text(n: int) -> Seq<char>
    recommends
        n >= 0,
    decreases n,
{
    if n < 10 {
        seq![digit_char(n)]
    } else {
        spec_digits_text(n / 10) + seq![digit_char(n % 10)]
    }
}

/// Decimal rendering of an integer, with a leading minus when negative.
pub open spec fn spec_i64_text(v: int) -> Seq<char> {
    if v < 0 {
        seq!['-'] + spec_digits_text(-v)
    } else {
        spec_digits_text(v)
    }
}

/// Rendering of a chapter number: every component followed by a dot.
pub open spec fn spec_number_text(ns: Seq<i64>) -> Seq<char>
    decreases ns.len(),
{
    if ns.len() == 0 {
        Seq::empty()
    } else {
        spec_i64_text(ns[0] as int) + seq!['.'] + spec_number_text(ns.drop_first())
    }
}

fn digit_str(d: u64) -> (r: &'static str)
    requires
        d < 10,
    ensures
        r@ == seq![digit_char(d as int)],
{
    let r = match d {
        0 => "0",
        1 => "1",
        2 => "2",
        3 => "3",
        4 => "4",
        5 => "5",
        6 => "6",
        7 => "7",
        8 => "8",
        _ => "9",
    };
    proof {
        reveal_strlit("0");
        reveal_strlit("1");
        reveal_strlit("2");
        reveal_strlit("3");
        reveal_strlit("4");
        reveal_strlit("5");
        reveal_strlit("6");
        reveal_strlit("7");
        reveal_strlit("8");
        reveal_strlit("9");
        assert(r@ =~= seq![digit_char(d as int)]);
    }
    r
}

fn push_digits(n: u64, out: &mut String)
    ensures
        final(out)@ == old(out)@ + spec_digits_text(n as int),
    decreases n,
{
    if n >= 10 {
        push_digits(n / 10, out);
    }
    out.append(digit_str(n % 10));
    proof {
        if n < 10 {
            assert(spec_digits_text(n as int) =~= seq![digit_char(n as int)]);
        }
        assert(final(out)@ =~= old(out)@ + spec_digits_text(n as int));
    }
}

fn push_i64(v: i64, out: &mut String)
    ensures
        final(out)@ == old(out)@ + spec_i64_text(v as int),
{
    if v < 0 {
        out.append("-");
        proof {
            reveal_strlit("-");
            assert("-"@ =~= seq!['-']);
        }
        let mag: u64 = ((-(v + 1)) as u64) + 1;
        proof {
            assert(mag as int == -(v as int));
        }
        push_digits(mag, out);
        proof {
            assert(final(out)@ =~= old(out)@ + spec_i64_text(v as int));
        }
    } else {
        push_digits(v as u64, out);
    }
}

impl ChapterNumber {
    /// The text form "1.2.3.": every component followed by a dot.
    pub fn to_text(&self) -> (r: String)
        ensures
            r@ == spec_number_text(self@),
    {
        let mut out = String::new();
        proof {
            assert(self@.subrange(0, self@.len() as int) =~= self@);
            assert(out@ + spec_number_text(self@) =~= spec_number_text(self@));
        }
        let mut i: usize = 0;
        while i < self.0.len()
            invariant
                i <= self.0.len(),
                out@ + spec_number_text(self@.subrange(i as int, self@.len() as int))
                    == spec_number_text(self@),
            decreases self.0.len() - i,
        {
            let ghost rest = self@.subrange(i as int, self@.len() as int);
            push_i64(self.0[i], &mut out);
            out.append(".");
            proof {
                reveal_strlit(".");
                assert("."@ =~= seq!['.']);
                assert(rest[0] == self@[i as int]);
                assert(rest.drop_first() =~= self@.subrange(i + 1, self@.len() as int));
                assert(out@ + spec_number_text(self@.subrange(i + 1, self@.len() as int))
                    =~= spec_number_text(self@));
            }
            i = i + 1;
        }
        proof {
            assert(self@.subrange(self@.len() as int, self@.len() as int).len() == 0);
            assert(out@ =~= spec_number_text(self@));
        }
        out
    }
}

/// Decimal text of an integer.
pub fn i64_text(v: i64) -> (r: String)
    ensures
        r@ == spec_i64_text(v as int),
{
    let mut out = String::new();
    push_i64(v, &mut out);
    proof {
        assert(out@ =~= spec_i64_text(v as int));
    }
    out
}

/// A teaching plan and short summary generated for one chapter.
#[derive(Debug)]
pub struct ChapterPlan {
    pub plan: String,
    pub summary: String,
}

impl ChapterPlan {
    /// An exact copy.
    pub fn duplicate(&self) -> (r: ChapterPlan)
        ensures
            r.plan@ == self.plan@,
            r.summary@ == self.summary@,
    {
        ChapterPlan { plan: self.plan.clone(), summary: self.summary.clone() }
    }
}

/// A chapter ready for teaching: raw content plus its generated plan.
#[derive(Debug)]
pub struct Chapter {
    pub name: String,
    pub number: ChapterNumber,
    pub path: Option<String>,
    pub content: String,
    pub chapter_plan: ChapterPlan,
}

/// Mathematical model of a finished chapter.
#[verifier::ext_equal]
pub ghost struct ChapterModel {
    pub name: Seq<char>,
    pub number: Seq<i64>,
    pub path: Option<Seq<char>>,
    pub content: Seq<char>,
    pub plan: Seq<char>,
    pub summary: Seq<char>,
}

impl View for Chapter {
    type V = ChapterModel;

    open spec fn view(&self) -> ChapterModel {
        ChapterModel {
            name: self.name@,
            number: self.number@,
            path: match self.path {
                Some(p) => Some(p@),
                None => None,
            },
            content: self.content@,
            plan: self.chapter_plan.plan@,
            summary: self.chapter_plan.summary@,
        }
    }
}

/// Text of an optional path, the empty text when there is none.
pub open spec fn spec_opt_text(o: Option<String>) -> Seq<char> {
    match o {
        Some(s) => s@,
        None => Seq::empty(),
    }
}

/// An exact copy of an optional text.
pub fn dup_opt_text(o: &Option<String>) -> (r: Option<String>)
    ensures
        r is Some <==> o is Some,
        r matches Some(rs) ==> o matches Some(os) && rs@ == os@,
{
    match o {
        Some(s) => Some(s.clone()),
        None => None,
    }
}

impl Chapter {
    /// An exact copy.
    pub fn duplicate(&self) -> (r: Chapter)
        ensures
            r@ == self@,
    {
        let r = Chapter {
            name: self.name.clone(),
            number: self.number.duplicate(),
            path: dup_opt_text(&self.path),
            content: self.content.clone(),
            chapter_plan: self.chapter_plan.duplicate(),
        };
        proof {
            assert(r@ =~= self@);
        }
        r
    }
}

/// The text a chapter lookup hands back: heading line, content, then the
/// generated plan and summary.
pub open spec fn spec_chapter_render(c: ChapterModel) -> Seq<char> {
    spec_number_text(c.number) + " "@ + c.name + "\n"@ + c.content + "\n"@ + c.plan + "\n"@
        + c.summary
}

impl Chapter {
    /// Renders the chapter for a tool answer.
    pub fn render(&self) -> (r: String)
        ensures
            r@ == spec_chapter_render(self@),
    {
        let mut out = self.number.to_text();
        out.append(" ");
        out.append(self.name.as_str());
        out.append("\n");
        out.append(self.content.as_str());
        out.append("\n");
        out.append(self.chapter_plan.plan.as_str());
        out.append("\n");
        out.append(self.chapter_plan.summary.as_str());
        out
    }
}

/// A chapter as read out of the book source: content plus subtree, before
/// any plan has been generated for it.
#[derive(Debug)]
pub struct ChapterRaw {
    pub name: String,
    pub number: ChapterNumber,
    pub parent_names: Vec<String>,
    pub path: Option<String>,
    pub content: String,
    pub sub_chapters: Vec<ChapterRaw>,
}

/// Indentation depth of a chapter in the table of contents: prefix and
/// suffix chapters sit flush left, others one step per nesting level.
pub open spec fn spec_indent_count(ns: Seq<i64>) -> nat {
    if ns.len() == 0 {
        0
    } else if ns[0] == 0 || ns[0] == -1 {
        0
    } else {
        (ns.len() - 1) as nat
    }
}

/// `k` copies of the two-space indent unit.
pub open spec fn spec_spaces(k: nat) -> Seq<char>
    decreases k,
{
    if k == 0 {
        Seq::empty()
    } else {
        spec_spaces((k - 1) as nat) + seq![' ', ' ']
    }
}

/// One chapter's own line in the table of contents.
pub open spec fn spec_toc_line(c: ChapterRaw) -> Seq<char> {
    spec_spaces(spec_indent_count(c.number@)) + spec_number_text(c.number@) + " ["@ + c.name@
        + "]("@ + spec_opt_text(c.path) + ")  \n"@
}

/// The table-of-contents text of a chapter: its own line, then its
/// sub-chapters' entries in order.
pub open spec fn spec_toc_item(c: ChapterRaw) -> Seq<char>
    decreases c, 1int,
{
    spec_toc_line(c) + spec_toc_items(c.sub_chapters@)
}

pub open spec fn spec_toc_items(cs: Seq<ChapterRaw>) -> Seq<char>
    decreases cs, 0int,
{
    if cs.len() == 0 {
        Seq::empty()
    } else {
        spec_toc_item(cs[0]) + spec_toc_items(cs.drop_first())
    }
}

impl ChapterRaw {
    /// The table-of-contents entry for this chapter and its subtree.
    pub fn get_toc_item(&self) -> (r: String)
        ensures
            r@ == spec_toc_item(*self),
        decreases *self,
    {
        let mut out = String::new();
        let indent: usize = if self.number.0.len() == 0 {
            0
        } else if self.number.0[0] == 0 || self.number.0[0] == -1 {
            0
        } else {
            self.number.0.len() - 1
        };
        let mut k: usize = 0;
        while k < indent
            invariant
                k <= indent,
                out@ == spec_spaces(k as nat),
            decreases indent - k,
        {
            out.append("  ");
            proof {
                reveal_strlit("  ");
                assert("  "@ =~= seq![' ', ' ']);
            }
            k = k + 1;
        }
        let number_text = self.number.to_text();
        out.append(number_text.as_str());
        out.append(" [");
        out.append(self.name.as_str());
        out.append("](");
        match &self.path {
            Some(p) => out.append(p.as_str()),
            None => {},
        }
        out.append(")  \n");
        proof {
            assert(indent as nat == spec_indent_count(self.number@));
            assert(out@ =~= spec_toc_line(*self));
        }
        let ghost line = out@;
        proof {
            assert(self.sub_chapters@.subrange(0, self.sub_chapters@.len() as int)
                =~= self.sub_chapters@);
            assert(out@ + spec_toc_items(self.sub_chapters@) =~= spec_toc_item(*self));
        }
        let mut i: usize = 0;
        while i < self.sub_chapters.len()
            invariant
                i <= self.sub_chapters.len(),
                line == spec_toc_line(*self),
                out@ + spec_toc_items(
                    self.sub_chapters@.subrange(i as int, self.sub_chapters@.len() as int),
                ) == spec_toc_item(*self),
            decreases self.sub_chapters.len() - i,
        {
            let ghost rest = self.sub_chapters@.subrange(
                i as int,
                self.sub_chapters@.len() as int,
            );
            proof {
                assert(decreases_to!(*self => self.sub_chapters@[i as int]));
            }
            let sub = self.sub_chapters[i].get_toc_item();
            out.append(sub.as_str());
            proof {
                assert(rest[0] == self.sub_chapters@[i as int]);
                assert(rest.drop_first() =~= self.sub_chapters@.subrange(
                    i + 1,
                    self.sub_chapters@.len() as int,
                ));
                assert(out@ + spec_toc_items(
                    self.sub_chapters@.subrange(i + 1, self.sub_chapters@.len() as int),
                ) =~= spec_toc_item(*self));
            }
            i = i + 1;
        }
        proof {
            assert(spec_toc_items(
                self.sub_chapters@.subrange(
                    self.sub_chapters@.len() as int,
                    self.sub_chapters@.len() as int,
                ),
            ) =~= Seq::<char>::empty());
            assert(out@ =~= spec_toc_item(*self));
        }
        out
    }

    /// Pairs this chapter's content with a generated plan.
    pub fn to_chapter(&self, chapter_plan: ChapterPlan) -> (r: Chapter)
        ensures
            r.name@ == self.name@,
            r.number@ == self.number@,
            r.path is Some <==> self.path is Some,
            spec_opt_text(r.path) == spec_opt_text(self.path),
            r.content@ == self.content@,
            r.chapter_plan == chapter_plan,
    {
        Chapter {
            name: self.name.clone(),
            number: self.number.duplicate(),
            path: dup_opt_text(&self.path),
            content: self.content.clone(),
            chapter_plan,
        }
    }
}

} // verus!
