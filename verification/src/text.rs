//! Character-level text operations used by the extraction rules and the
//! list view: whitespace trimming, substring search, joining, splitting,
//! decimal numbers and lexicographic order.
use vstd::prelude::*;

verus! {

/// Result of comparing two values in a total preorder.
#[derive(Clone, Copy, Debug, PartialEq, Eq, Structural)]
pub enum Rank {
    Less,
    Equal,
    Greater,
}

/// The opposite outcome, as seen from the other side of the comparison.
pub open spec fn flip(r: Rank) -> Rank {
    match r {
        Rank::Less => Rank::Greater,
        Rank::Equal => Rank::Equal,
        Rank::Greater => Rank::Less,
    }
}

pub fn flip_rank(r: Rank) -> (out: Rank)
    ensures
        out == flip(r),
{
    match r {
        Rank::Less => Rank::Greater,
        Rank::Equal => Rank::Equal,
        Rank::Greater => Rank::Less,
    }
}

// ---------------------------------------------------------------------------
// Whitespace and trimming
// ---------------------------------------------------------------------------

/// The Unicode `White_Space` property, which is what `char::is_whitespace`
/// and `str::trim` go by.
pub open spec fn is_space(c: char) -> bool {
    let u = c as u32;
    ||| 0x09 <= u <= 0x0D
    ||| u == 0x20
    ||| u == 0x85
    ||| u == 0xA0
    ||| u == 0x1680
    ||| 0x2000 <= u <= 0x200A
    ||| u == 0x2028
    ||| u == 0x2029
    ||| u == 0x202F
    ||| u == 0x205F
    ||| u == 0x3000
}

pub fn is_space_char(c: char) -> (r: bool)
    ensures
        r == is_space(c),
{
    let u = c as u32;
    (0x09 <= u && u <= 0x0D) || u == 0x20 || u == 0x85 || u == 0xA0 || u == 0x1680 || (0x2000
        <= u && u <= 0x200A) || u == 0x2028 || u == 0x2029 || u == 0x202F || u == 0x205F || u
        == 0x3000
}

/// `s` without its leading whitespace.
pub open spec fn trim_start(s: Seq<char>) -> Seq<char>
    decreases s.len(),
{
    if s.len() > 0 && is_space(s[0]) {
        trim_start(s.drop_first())
    } else {
        s
    }
}

/// `s` without its trailing whitespace.
pub open spec fn trim_end(s: Seq<char>) -> Seq<char>
    decreases s.len(),
{
    if s.len() > 0 && is_space(s.last()) {
        trim_end(s.drop_last())
    } else {
        s
    }
}

/// `s` without leading and trailing whitespace.
pub open spec fn trimmed(s: Seq<char>) -> Seq<char> {
    trim_end(trim_start(s))
}

/// Copies `s[from..to]`.
pub fn copy_range(s: &Vec<char>, from: usize, to: usize) -> (r: Vec<char>)
    requires
        from <= to <= s.len(),
    ensures
        r@ == s@.subrange(from as int, to as int),
{
    let mut r: Vec<char> = Vec::new();
    let mut k: usize = from;
    while k < to
        invariant
            from <= k <= to <= s.len(),
            r@ == s@.subrange(from as int, k as int),
        decreases to - k,
    {
        r.push(s[k]);
        k = k + 1;
    }
    r
}

pub fn trim_chars(s: &Vec<char>) -> (r: Vec<char>)
    ensures
        r@ == trimmed(s@),
{
    let len = s.len();
    let mut i: usize = 0;
    assert(s@.subrange(0, len as int) =~= s@);
    while i < len && is_space_char(s[i])
        invariant
            i <= len == s.len(),
            trim_start(s@) == trim_start(s@.subrange(i as int, len as int)),
        decreases len - i,
    {
        assert(s@.subrange(i as int, len as int).drop_first() =~= s@.subrange(
            i + 1,
            len as int,
        ));
        i = i + 1;
    }
    assert(trim_start(s@) == s@.subrange(i as int, len as int));
    let mut j: usize = len;
    while j > i && is_space_char(s[j - 1])
        invariant
            i <= j <= len == s.len(),
            trimmed(s@) == trim_end(s@.subrange(i as int, j as int)),
        decreases j,
    {
        assert(s@.subrange(i as int, j as int).drop_last() =~= s@.subrange(
            i as int,
            j - 1,
        ));
        j = j - 1;
    }
    copy_range(s, i, j)
}

// ---------------------------------------------------------------------------
// Substring search
// ---------------------------------------------------------------------------

/// `pat` occurs in `text` starting at position `i`.
pub open spec fn occurs_at(text: Seq<char>, pat: Seq<char>, i: int) -> bool {
    &&& 0 <= i
    &&& i + pat.len() <= text.len()
    &&& text.subrange(i, i + pat.len()) == pat
}

/// `pat` is a substring of `text` (the empty pattern is a substring of anything).
pub open spec fn has_substring(text: Seq<char>, pat: Seq<char>) -> bool {
    exists|i: int| #[trigger] occurs_at(text, pat, i)
}

pub fn contains_chars(text: &Vec<char>, pat: &Vec<char>) -> (r: bool)
    ensures
        r == has_substring(text@, pat@),
{
    let tlen = text.len();
    let plen = pat.len();
    if plen > tlen {
        assert forall|k: int| !occurs_at(text@, pat@, k) by {}
        return false;
    }
    let mut i: usize = 0;
    while i <= tlen - plen
        invariant
            tlen == text.len(),
            plen == pat.len(),
            plen <= tlen,
            forall|k: int| 0 <= k < i ==> !#[trigger] occurs_at(text@, pat@, k),
        decreases tlen - plen + 1 - i,
    {
        let mut j: usize = 0;
        while j < plen && text[i + j] == pat[j]
            invariant
                tlen == text.len(),
                plen == pat.len(),
                i + plen <= tlen,
                j <= plen,
                forall|m: int| 0 <= m < j ==> text@[i + m] == pat@[m],
            decreases plen - j,
        {
            j = j + 1;
        }
        if j == plen {
            assert(text@.subrange(i as int, i + plen) =~= pat@);
            assert(occurs_at(text@, pat@, i as int));
            return true;
        }
        assert(!occurs_at(text@, pat@, i as int)) by {
            if occurs_at(text@, pat@, i as int) {
                assert(text@[i + j as int] == text@.subrange(i as int, i + plen)[j as int]);
            }
        }
        i = i + 1;
    }
    assert forall|k: int| !occurs_at(text@, pat@, k) by {
        if 0 <= k < i {
        }
    }
    false
}

// ---------------------------------------------------------------------------
// Joining and splitting
// ---------------------------------------------------------------------------

/// The views of a list of strings.
pub open spec fn strings_view(v: Seq<String>) -> Seq<Seq<char>> {
    v.map_values(|s: String| s@)
}

/// `parts` joined with `sep` between each two neighbours.
pub open spec fn joined(parts: Seq<Seq<char>>, sep: Seq<char>) -> Seq<char>
    decreases parts.len(),
{
    if parts.len() == 0 {
        Seq::empty()
    } else if parts.len() == 1 {
        parts[0]
    } else {
        joined(parts.drop_last(), sep) + sep + parts.last()
    }
}

pub fn join_strings(parts: &Vec<String>, sep: &str) -> (r: String)
    ensures
        r@ == joined(strings_view(parts@), sep@),
{
    let mut r = String::new();
    let n = parts.len();
    let ghost views = strings_view(parts@);
    let mut i: usize = 0;
    while i < n
        invariant
            n == parts.len(),
            i <= n,
            views == strings_view(parts@),
            r@ == joined(views.take(i as int), sep@),
        decreases n - i,
    {
        assert(views.take(i + 1).drop_last() =~= views.take(i as int));
        if i > 0 {
            r.append(sep);
        }
        r.append(parts[i].as_str());
        i = i + 1;
    }
    assert(views.take(n as int) =~= views);
    r
}

/// The pieces of `s` between commas, as `str::split(',')` gives them.
pub open spec fn comma_pieces(s: Seq<char>) -> Seq<Seq<char>>
    decreases s.len(),
{
    if s.len() == 0 {
        seq![Seq::empty()]
    } else {
        let before = comma_pieces(s.drop_last());
        if s.last() == ',' {
            before.push(Seq::empty())
        } else {
            before.update(before.len() - 1, before.last().push(s.last()))
        }
    }
}

pub proof fn lemma_comma_pieces_nonempty(s: Seq<char>)
    ensures
        comma_pieces(s).len() >= 1,
    decreases s.len(),
{
    if s.len() > 0 {
        lemma_comma_pieces_nonempty(s.drop_last());
    }
}

/// The trimmed pieces of `parts` that are not empty, in order.
pub open spec fn nonblank_trimmed(parts: Seq<Seq<char>>) -> Seq<Seq<char>>
    decreases parts.len(),
{
    if parts.len() == 0 {
        Seq::empty()
    } else {
        let before = nonblank_trimmed(parts.drop_last());
        let t = trimmed(parts.last());
        if t.len() > 0 {
            before.push(t)
        } else {
            before
        }
    }
}

/// The keywords written in a comma-separated list: each piece trimmed,
/// empty pieces dropped.
pub open spec fn keyword_list(s: Seq<char>) -> Seq<Seq<char>> {
    nonblank_trimmed(comma_pieces(s))
}

/// Splits `s` at every comma.
pub fn split_commas(s: &Vec<char>) -> (r: Vec<Vec<char>>)
    ensures
        r@.map_values(|p: Vec<char>| p@) == comma_pieces(s@),
{
    let mut r: Vec<Vec<char>> = Vec::new();
    let mut cur: Vec<char> = Vec::new();
    let n = s.len();
    let mut i: usize = 0;
    while i < n
        invariant
            n == s.len(),
            i <= n,
            r@.map_values(|p: Vec<char>| p@).push(cur@) == comma_pieces(s@.take(i as int)),
        decreases n - i,
    {
        let ghost before = r@.map_values(|p: Vec<char>| p@).push(cur@);
        assert(s@.take(i + 1).drop_last() =~= s@.take(i as int));
        let c = s[i];
        if c == ',' {
            let done = cur;
            r.push(done);
            cur = Vec::new();
            assert(r@.map_values(|p: Vec<char>| p@).push(cur@) =~= before.push(Seq::empty()));
        } else {
            cur.push(c);
            assert(r@.map_values(|p: Vec<char>| p@).push(cur@) =~= before.update(
                before.len() - 1,
                before.last().push(c),
            ));
        }
        i = i + 1;
    }
    assert(s@.take(n as int) =~= s@);
    r.push(cur);
    r
}

/// The keywords of a comma-separated list: trimmed, empty ones dropped.
pub fn split_keywords(s: &Vec<char>) -> (r: Vec<Vec<char>>)
    ensures
        r@.map_values(|p: Vec<char>| p@) == keyword_list(s@),
{
    let pieces = split_commas(s);
    let ghost pv = pieces@.map_values(|p: Vec<char>| p@);
    let mut r: Vec<Vec<char>> = Vec::new();
    let n = pieces.len();
    let mut i: usize = 0;
    while i < n
        invariant
            n == pieces.len(),
            i <= n,
            pv == pieces@.map_values(|p: Vec<char>| p@),
            r@.map_values(|p: Vec<char>| p@) == nonblank_trimmed(pv.take(i as int)),
        decreases n - i,
    {
        assert(pv.take(i + 1).drop_last() =~= pv.take(i as int));
        let t = trim_chars(&pieces[i]);
        if t.len() > 0 {
            let ghost before = r@.map_values(|p: Vec<char>| p@);
            r.push(t);
            assert(r@.map_values(|p: Vec<char>| p@) =~= before.push(t@));
        }
        i = i + 1;
    }
    assert(pv.take(n as int) =~= pv);
    r
}

// ---------------------------------------------------------------------------
// Decimal numbers
// ---------------------------------------------------------------------------

/// An ASCII decimal digit, which is what `char::is_digit(10)` accepts.
pub open spec fn is_digit(c: char) -> bool {
    '0' <= c <= '9'
}

pub fn is_digit_char(c: char) -> (r: bool)
    ensures
        r == is_digit(c),
{
    '0' <= c && c <= '9'
}

pub open spec fn digit_value(c: char) -> nat {
    (c as u32 - '0' as u32) as nat
}

pub open spec fn digit_char(d: nat) -> char {
    (d + '0' as u32) as char
}

pub open spec fn all_digits(s: Seq<char>) -> bool {
    forall|i: int| 0 <= i < s.len() ==> is_digit(#[trigger] s[i])
}

/// The number that the decimal digits `s` spell.
pub open spec fn decimal_value(s: Seq<char>) -> nat
    decreases s.len(),
{
    if s.len() == 0 {
        0
    } else {
        decimal_value(s.drop_last()) * 10 + digit_value(s.last())
    }
}

/// `s` without the one leading `+` that it may have.
pub open spec fn unsigned_digits(s: Seq<char>) -> Seq<char> {
    if s.len() > 0 && s[0] == '+' {
        s.drop_first()
    } else {
        s
    }
}

/// What `str::parse::<u64>` gives: an optional `+`, then at least one
/// decimal digit, for a value that fits in a `u64`.
pub open spec fn parsed_u64(s: Seq<char>) -> Option<u64> {
    let ds = unsigned_digits(s);
    if ds.len() > 0 && all_digits(ds) && decimal_value(ds) <= u64::MAX {
        Some(decimal_value(ds) as u64)
    } else {
        None
    }
}

/// The shortest decimal spelling of `n`, as `u64::to_string` writes it.
pub open spec fn decimal_digits(n: nat) -> Seq<char>
    decreases n,
{
    if n < 10 {
        seq![digit_char(n)]
    } else {
        decimal_digits(n / 10).push(digit_char(n % 10))
    }
}

proof fn lemma_decimal_value_monotone(s: Seq<char>, k: int)
    requires
        0 <= k <= s.len(),
        all_digits(s),
    ensures
        decimal_value(s.take(k)) <= decimal_value(s),
    decreases s.len() - k,
{
    if k < s.len() {
        lemma_decimal_value_monotone(s, k + 1);
        assert(s.take(k + 1).drop_last() =~= s.take(k));
        assert(s.take(k + 1).last() == s[k]);
    } else {
        assert(s.take(k) =~= s);
    }
}

pub fn parse_u64(s: &Vec<char>) -> (r: Option<u64>)
    ensures
        r == parsed_u64(s@),
{
    let n = s.len();
    let mut start: usize = 0;
    if n > 0 && s[0] == '+' {
        start = 1;
    }
    let ghost ds = unsigned_digits(s@);
    assert(ds =~= s@.subrange(start as int, n as int));
    if start == n {
        return None;
    }
    let mut acc: u64 = 0;
    let mut i: usize = start;
    while i < n
        invariant
            start <= i <= n == s.len(),
            start < n,
            ds == unsigned_digits(s@),
            ds == s@.subrange(start as int, n as int),
            all_digits(ds.take(i - start)),
            acc == decimal_value(ds.take(i - start)),
        decreases n - i,
    {
        let c = s[i];
        assert(ds.take(i - start + 1).drop_last() =~= ds.take(i - start));
        assert(ds.take(i - start + 1).last() == c);
        if !is_digit_char(c) {
            assert(!all_digits(ds)) by {
                assert(ds[i - start] == c);
            }
            assert(parsed_u64(s@) is None);
            return None;
        }
        let d: u64 = (c as u32 - '0' as u32) as u64;
        if acc > (u64::MAX - d) / 10 {
            proof {
                assert(acc * 10 + d > u64::MAX) by (nonlinear_arith)
                    requires
                        acc > (u64::MAX - d) / 10,
                        d <= 9,
                ;
                assert(decimal_value(ds.take(i - start + 1)) == acc * 10 + d);
                if all_digits(ds) {
                    lemma_decimal_value_monotone(ds, i - start + 1);
                }
            }
            return None;
        }
        acc = acc * 10 + d;
        i = i + 1;
    }
    assert(ds.take(n - start) =~= ds);
    Some(acc)
}

/// The decimal spelling of `n`.
pub fn decimal_string(n: u64) -> (r: Vec<char>)
    ensures
        r@ == decimal_digits(n as nat),
    decreases n,
{
    let d = (n % 10) as u32;
    assert(d as nat == (n as nat) % 10);
    assert((n / 10) as nat == (n as nat) / 10);
    let c = char_of_digit(d);
    if n < 10 {
        let mut r: Vec<char> = Vec::new();
        r.push(c);
        r
    } else {
        let mut r = decimal_string(n / 10);
        r.push(c);
        r
    }
}

fn char_of_digit(d: u32) -> (c: char)
    requires
        d < 10,
    ensures
        c == digit_char(d as nat),
{
    match d {
        0 => '0',
        1 => '1',
        2 => '2',
        3 => '3',
        4 => '4',
        5 => '5',
        6 => '6',
        7 => '7',
        8 => '8',
        _ => '9',
    }
}

// ---------------------------------------------------------------------------
// Lexicographic order
// ---------------------------------------------------------------------------

/// Lexicographic order of character sequences by code point, which is the
/// order `String`'s `Ord` gives (UTF-8 keeps code point order).
pub open spec fn seq_order(a: Seq<char>, b: Seq<char>) -> Rank
    decreases a.len(),
{
    if a.len() == 0 && b.len() == 0 {
        Rank::Equal
    } else if a.len() == 0 {
        Rank::Less
    } else if b.len() == 0 {
        Rank::Greater
    } else if a[0] < b[0] {
        Rank::Less
    } else if a[0] > b[0] {
        Rank::Greater
    } else {
        seq_order(a.drop_first(), b.drop_first())
    }
}

pub fn order_chars(a: &Vec<char>, b: &Vec<char>) -> (r: Rank)
    ensures
        r == seq_order(a@, b@),
{
    let mut i: usize = 0;
    assert(a@.skip(0) =~= a@);
    assert(b@.skip(0) =~= b@);
    while i < a.len() && i < b.len()
        invariant
            i <= a.len(),
            i <= b.len(),
            seq_order(a@, b@) == seq_order(a@.skip(i as int), b@.skip(i as int)),
        decreases a.len() - i,
    {
        let x = a[i];
        let y = b[i];
        if x < y {
            return Rank::Less;
        }
        if x > y {
            return Rank::Greater;
        }
        assert(a@.skip(i as int).drop_first() =~= a@.skip(i + 1));
        assert(b@.skip(i as int).drop_first() =~= b@.skip(i + 1));
        i = i + 1;
    }
    if i == a.len() && i == b.len() {
        Rank::Equal
    } else if i == a.len() {
        Rank::Less
    } else {
        Rank::Greater
    }
}

pub proof fn lemma_seq_order_flip(a: Seq<char>, b: Seq<char>)
    ensures
        seq_order(b, a) == flip(seq_order(a, b)),
    decreases a.len(),
{
    if a.len() > 0 && b.len() > 0 && a[0] == b[0] {
        lemma_seq_order_flip(a.drop_first(), b.drop_first());
    }
}

pub proof fn lemma_seq_order_equal(a: Seq<char>, b: Seq<char>)
    ensures
        seq_order(a, b) == Rank::Equal <==> a == b,
    decreases a.len(),
{
    if a.len() > 0 && b.len() > 0 && a[0] == b[0] {
        lemma_seq_order_equal(a.drop_first(), b.drop_first());
        if a.drop_first() == b.drop_first() {
            assert(a[0] == b[0]);
            assert forall|k: int| 0 <= k < a.len() implies a[k] == b[k] by {
                if k > 0 {
                    assert(a[k] == a.drop_first()[k - 1]);
                    assert(b[k] == b.drop_first()[k - 1]);
                }
            }
            assert(a =~= b);
        }
    }
    if a == b && a.len() > 0 {
        assert(a.drop_first() == b.drop_first());
    }
    if a.len() == 0 && b.len() == 0 {
        assert(a =~= b);
    }
}

pub proof fn lemma_seq_order_transitive(a: Seq<char>, b: Seq<char>, c: Seq<char>)
    requires
        seq_order(a, b) != Rank::Greater,
        seq_order(b, c) != Rank::Greater,
    ensures
        seq_order(a, c) != Rank::Greater,
        seq_order(a, b) == Rank::Less || seq_order(b, c) == Rank::Less ==> seq_order(a, c)
            == Rank::Less,
    decreases a.len(),
{
    if a.len() > 0 && b.len() > 0 && c.len() > 0 && a[0] == b[0] && b[0] == c[0] {
        lemma_seq_order_transitive(a.drop_first(), b.drop_first(), c.drop_first());
    }
}

// ---------------------------------------------------------------------------
// Conversions between strings and characters
// ---------------------------------------------------------------------------

/// An owned copy of `s`.
pub fn text_of(s: &str) -> (r: String)
    ensures
        r@ == s@,
{
    let mut r = String::new();
    r.append(s);
    assert(r@ =~= s@);
    r
}

/// `a` followed by `b`.
pub fn concat(a: &str, b: &str) -> (r: String)
    ensures
        r@ == a@ + b@,
{
    let mut r = String::new();
    r.append(a);
    r.append(b);
    r
}

/// The characters of `s`, in order.
pub fn chars_of(s: &str) -> (r: Vec<char>)
    ensures
        r@ == s@,
{
    let mut r: Vec<char> = Vec::new();
    for c in it: s.chars()
        invariant
            r@ == it.seq().take(it.index() as int),
            it.seq() == s@,
    {
        r.push(c);
    }
    r
}

/// The string made of `chars`.
///
/// Trusted: `FromIterator<&char>` for `String` (through `Iterator::collect`)
/// appends the characters in the order the iterator yields them, so the
/// string's characters are `chars` itself.
#[verifier::external_body]
pub(crate) fn string_of(chars: &Vec<char>) -> (r: String)
    ensures
        r@ == chars@,
{
    chars.iter().collect()
}

/// Appends one character.
///
/// Trusted: `String::push` appends `c` to the end of the string.
#[verifier::external_body]
pub(crate) fn push_char(s: &mut String, c: char)
    ensures
        final(s)@ == old(s)@.push(c),
{
    s.push(c)
}

/// Removes the last character, if there is one.
///
/// Trusted: `String::pop` removes and returns the last character, and
/// returns `None` on an empty string, which it leaves as it is.
#[verifier::external_body]
pub(crate) fn pop_char(s: &mut String) -> (r: Option<char>)
    ensures
        old(s)@.len() == 0 ==> r is None && final(s)@ == old(s)@,
        old(s)@.len() > 0 ==> r == Some(old(s)@.last()) && final(s)@ == old(s)@.drop_last(),
{
    s.pop()
}

/// What `str::to_lowercase` returns for a string: the Unicode lowercase
/// mapping of every character, which takes pages to state.
pub uninterp spec fn lowercase(s: Seq<char>) -> Seq<char>;

/// The lowercase form of `s`.
///
/// Trusted: `str::to_lowercase` is a function of the string's characters
/// alone; the contract names its result and states nothing more.
#[verifier::external_body]
pub(crate) fn to_lowercase(s: &str) -> (r: String)
    ensures
        r@ == lowercase(s@),
{
    s.to_lowercase()
}

/// The lowercase characters of `s`.
pub fn lowercase_chars(s: &str) -> (r: Vec<char>)
    ensures
        r@ == lowercase(s@),
{
    let l = to_lowercase(s);
    chars_of(l.as_str())
}

proof fn lemma_digit_char(d: nat)
    requires
        d < 10,
    ensures
        is_digit(digit_char(d)),
        digit_value(digit_char(d)) == d,
{
}

proof fn lemma_decimal_digits(n: nat)
    ensures
        decimal_digits(n).len() > 0,
        all_digits(decimal_digits(n)),
        decimal_value(decimal_digits(n)) == n,
    decreases n,
{
    lemma_digit_char(n % 10);
    if n >= 10 {
        lemma_decimal_digits(n / 10);
        let s = decimal_digits(n / 10);
        assert(decimal_digits(n).drop_last() =~= s);
        assert(decimal_digits(n).last() == digit_char(n % 10));
        assert(decimal_value(decimal_digits(n)) == decimal_value(s) * 10 + digit_value(digit_char(n % 10)));
        assert(n == (n / 10) * 10 + n % 10);
        assert forall|i: int| 0 <= i < decimal_digits(n).len() implies is_digit(
            #[trigger] decimal_digits(n)[i],
        ) by {
            if i < s.len() {
                assert(decimal_digits(n)[i] == s[i]);
            }
        }
    } else {
        lemma_digit_char(n);
        assert(decimal_digits(n).drop_last() =~= Seq::<char>::empty());
        assert(decimal_value(decimal_digits(n)) == decimal_value(Seq::<char>::empty()) * 10 + digit_value(digit_char(n)));
    }
}

/// Reading back the decimal spelling of a number gives the number:
/// `n.to_string().parse::<u64>() == Ok(n)`.
pub proof fn lemma_decimal_round_trip(n: u64)
    ensures
        parsed_u64(decimal_digits(n as nat)) == Some(n),
{
    lemma_decimal_digits(n as nat);
    let s = decimal_digits(n as nat);
    assert(is_digit(s[0]));
    assert(unsigned_digits(s) == s);
}

proof fn lemma_comma_pieces_append(a: Seq<char>, b: Seq<char>)
    requires
        !b.contains(','),
    ensures
        comma_pieces(a + b) == comma_pieces(a).update(
            comma_pieces(a).len() - 1,
            comma_pieces(a).last() + b,
        ),
    decreases b.len(),
{
    lemma_comma_pieces_nonempty(a);
    if b.len() == 0 {
        assert(a + b =~= a);
        assert(comma_pieces(a).last() + b =~= comma_pieces(a).last());
        assert(comma_pieces(a).update(comma_pieces(a).len() - 1, comma_pieces(a).last())
            =~= comma_pieces(a));
    } else {
        let b0 = b.drop_last();
        assert(!b0.contains(',')) by {
            if b0.contains(',') {
                let k = choose|k: int| 0 <= k < b0.len() && b0[k] == ',';
                assert(b[k] == ',');
            }
        }
        lemma_comma_pieces_append(a, b0);
        assert((a + b).drop_last() =~= a + b0);
        assert((a + b).last() == b.last());
        assert(b.last() != ',') by {
            assert(b[b.len() - 1] == b.last());
        }
        lemma_comma_pieces_nonempty(a + b0);
        let p = comma_pieces(a);
        let n = p.len();
        let before = comma_pieces(a + b0);
        assert(before == p.update(n - 1, p.last() + b0));
        assert(before.len() == n);
        assert(before.last() == p.last() + b0);
        assert(comma_pieces(a + b) == before.update(n - 1, before.last().push(b.last())));
        assert((p.last() + b0).push(b.last()) =~= p.last() + b);
        assert(comma_pieces(a + b) =~= comma_pieces(a).update(
            comma_pieces(a).len() - 1,
            comma_pieces(a).last() + b,
        ));
    }
}

/// A keyword that reads back as itself from a comma-separated list: not
/// empty, without surrounding whitespace, without commas.
pub open spec fn plain_keyword(k: Seq<char>) -> bool {
    &&& k.len() > 0
    &&& trimmed(k) == k
    &&& !k.contains(',')
}

proof fn lemma_trimmed_after_space(k: Seq<char>)
    ensures
        trimmed(seq![' '] + k) == trimmed(k),
{
    assert((seq![' '] + k).drop_first() =~= k);
}

proof fn lemma_joined_pieces(kws: Seq<Seq<char>>)
    requires
        kws.len() > 0,
        forall|i: int| 0 <= i < kws.len() ==> plain_keyword(#[trigger] kws[i]),
    ensures
        nonblank_trimmed(comma_pieces(joined(kws, ", "@))) == kws,
        comma_pieces(joined(kws, ", "@)).len() == kws.len(),
    decreases kws.len(),
{
    reveal_strlit(", ");
    let last = kws.last();
    assert(plain_keyword(kws[kws.len() - 1]));
    if kws.len() == 1 {
        lemma_comma_pieces_append(Seq::empty(), last);
        assert(Seq::<char>::empty() + last =~= last);
        assert(comma_pieces(joined(kws, ", "@)) =~= seq![last]);
        assert(seq![last].drop_last() =~= Seq::<Seq<char>>::empty());
        assert(seq![last].last() == last);
        assert(nonblank_trimmed(Seq::<Seq<char>>::empty()) == Seq::<Seq<char>>::empty());
        assert(nonblank_trimmed(seq![last]) == Seq::<Seq<char>>::empty().push(last));
        assert(Seq::<Seq<char>>::empty().push(last) =~= kws);
    } else {
        let init = kws.drop_last();
        assert forall|i: int| 0 <= i < init.len() implies plain_keyword(#[trigger] init[i]) by {
            assert(init[i] == kws[i]);
        }
        lemma_joined_pieces(init);
        let j = joined(init, ", "@);
        let tail = seq![' '] + last;
        assert(!tail.contains(',')) by {
            if tail.contains(',') {
                let k = choose|k: int| 0 <= k < tail.len() && tail[k] == ',';
                assert(last[k - 1] == ',');
            }
        }
        assert(joined(kws, ", "@) =~= j.push(',') + tail);
        lemma_comma_pieces_append(j.push(','), tail);
        assert(j.push(',').drop_last() =~= j);
        lemma_comma_pieces_nonempty(j);
        let pieces = comma_pieces(j.push(','));
        assert(pieces == comma_pieces(j).push(Seq::empty()));
        assert(Seq::<char>::empty() + tail =~= tail);
        assert(comma_pieces(joined(kws, ", "@)) =~= comma_pieces(j).push(tail));
        lemma_trimmed_after_space(last);
        assert(comma_pieces(j).push(tail).drop_last() =~= comma_pieces(j));
        assert(nonblank_trimmed(comma_pieces(j).push(tail)) =~= init.push(last));
        assert(init.push(last) =~= kws);
    }
}

/// A list of plain keywords written out with `", "` between them reads
/// back as the same list.
pub proof fn lemma_keyword_list_round_trip(kws: Seq<Seq<char>>)
    requires
        forall|i: int| 0 <= i < kws.len() ==> plain_keyword(#[trigger] kws[i]),
    ensures
        keyword_list(joined(kws, ", "@)) == kws,
{
    if kws.len() == 0 {
        assert(joined(kws, ", "@) == Seq::<char>::empty());
        assert(comma_pieces(Seq::<char>::empty()) =~= seq![Seq::<char>::empty()]);
        assert(seq![Seq::<char>::empty()].drop_last() =~= Seq::<Seq<char>>::empty());
        assert(trimmed(Seq::<char>::empty()) =~= Seq::<char>::empty());
        assert(seq![Seq::<char>::empty()].last() == Seq::<char>::empty());
        assert(nonblank_trimmed(Seq::<Seq<char>>::empty()) == Seq::<Seq<char>>::empty());
        assert(trimmed(seq![Seq::<char>::empty()].last()).len() == 0);
        assert(nonblank_trimmed(seq![Seq::<char>::empty()]) == Seq::<Seq<char>>::empty());
        assert(keyword_list(joined(kws, ", "@)) =~= kws);
    } else {
        lemma_joined_pieces(kws);
    }
}

} // verus!
