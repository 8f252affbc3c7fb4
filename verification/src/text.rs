use vstd::prelude::*;
use vstd::relations::{sorted_by, total_ordering};
use vstd::string::*;
use vstd::utf8::is_ascii_chars;

verus! {

// ---------------------------------------------------------------------------
// Lexicographic order on character sequences
// ---------------------------------------------------------------------------

/// `a` sorts strictly before `b` when the two agree on every position
/// before `i`: the first position from `i` on where they differ decides,
/// by Unicode scalar value, and a proper prefix sorts first.
pub open spec fn lex_lt_from(a: Seq<char>, b: Seq<char>, i: int) -> bool
    decreases a.len() - i,
{
    if i >= a.len() {
        i < b.len()
    } else if i >= b.len() {
        false
    } else if a[i] != b[i] {
        (a[i] as int) < (b[i] as int)
    } else {
        lex_lt_from(a, b, i + 1)
    }
}

/// The order in which `String`s sort: lexicographic by Unicode scalar value
/// (for UTF-8 this is the same as byte order).
pub open spec fn lex_lt(a: Seq<char>, b: Seq<char>) -> bool {
    lex_lt_from(a, b, 0)
}

/// `lex_lt` or equal.
pub open spec fn lex_le(a: Seq<char>, b: Seq<char>) -> bool {
    lex_lt(a, b) || a == b
}

proof fn lemma_lt_from_irreflexive(a: Seq<char>, i: int)
    ensures
        !lex_lt_from(a, a, i),
    decreases a.len() - i,
{
    if i < a.len() {
        lemma_lt_from_irreflexive(a, i + 1);
    }
}

proof fn lemma_lt_from_asymmetric(a: Seq<char>, b: Seq<char>, i: int)
    requires
        lex_lt_from(a, b, i),
    ensures
        !lex_lt_from(b, a, i),
    decreases a.len() - i,
{
    if i < a.len() && i < b.len() && a[i] == b[i] {
        lemma_lt_from_asymmetric(a, b, i + 1);
    }
}

proof fn lemma_lt_from_transitive(a: Seq<char>, b: Seq<char>, c: Seq<char>, i: int)
    requires
        lex_lt_from(a, b, i),
        lex_lt_from(b, c, i),
    ensures
        lex_lt_from(a, c, i),
    decreases a.len() - i,
{
    if i < a.len() && i < b.len() && i < c.len() && a[i] == b[i] && b[i] == c[i] {
        lemma_lt_from_transitive(a, b, c, i + 1);
    }
}

proof fn lemma_lt_from_total(a: Seq<char>, b: Seq<char>, i: int)
    requires
        0 <= i <= a.len(),
        i <= b.len(),
        !lex_lt_from(a, b, i),
        !lex_lt_from(b, a, i),
    ensures
        a.len() == b.len(),
        forall|j: int| i <= j < a.len() ==> a[j] == b[j],
    decreases a.len() - i,
{
    if i < a.len() && i < b.len() {
        if a[i] == b[i] {
            lemma_lt_from_total(a, b, i + 1);
        } else {
            assert((a[i] as int) != (b[i] as int));
        }
    }
}

/// `lex_lt` is a strict total order.
pub proof fn lemma_lex_order(a: Seq<char>, b: Seq<char>, c: Seq<char>)
    ensures
        !lex_lt(a, a),
        lex_lt(a, b) ==> !lex_lt(b, a),
        lex_lt(a, b) && lex_lt(b, c) ==> lex_lt(a, c),
        a != b ==> lex_lt(a, b) || lex_lt(b, a),
{
    lemma_lt_from_irreflexive(a, 0);
    if lex_lt(a, b) {
        lemma_lt_from_asymmetric(a, b, 0);
    }
    if lex_lt(a, b) && lex_lt(b, c) {
        lemma_lt_from_transitive(a, b, c, 0);
    }
    if !lex_lt(a, b) && !lex_lt(b, a) {
        lemma_lt_from_total(a, b, 0);
        assert(a =~= b);
    }
}

/// `lex_le` as a relation.
pub open spec fn lex_le_rel() -> spec_fn(Seq<char>, Seq<char>) -> bool {
    |a: Seq<char>, b: Seq<char>| lex_le(a, b)
}

/// `lex_le` is a total order, the order in which strings are sorted.
pub proof fn lemma_lex_le_total_ordering()
    ensures
        total_ordering(lex_le_rel()),
{
    let r = lex_le_rel();
    assert forall|x: Seq<char>| #[trigger] r(x, x) by {}
    assert forall|x: Seq<char>, y: Seq<char>| #[trigger] r(x, y) && #[trigger] r(y, x) implies x == y by {
        lemma_lex_order(x, y, x);
    }
    assert forall|x: Seq<char>, y: Seq<char>, z: Seq<char>|
        #[trigger] r(x, y) && #[trigger] r(y, z) implies r(x, z) by {
        lemma_lex_order(x, y, z);
    }
    assert forall|x: Seq<char>, y: Seq<char>| #[trigger] r(x, y) || #[trigger] r(y, x) by {
        lemma_lex_order(x, y, x);
    }
}

/// `lines` in the order `<[String]>::sort` puts them.
pub open spec fn sorted_lines(lines: Seq<Seq<char>>) -> Seq<Seq<char>> {
    lines.sort_by(lex_le_rel())
}

fn insert_in_order(list: &mut Vec<String>, x: String)
    requires
        sorted_by(views(old(list)@), lex_le_rel()),
    ensures
        sorted_by(views(final(list)@), lex_le_rel()),
        views(final(list)@).to_multiset() == views(old(list)@).to_multiset().insert(x@),
{
    let ghost old_views = views(list@);
    let mut p: usize = 0;
    while p < list.len() && !lex_less(x.as_str(), list[p].as_str())
        invariant
            p <= list@.len(),
            views(list@) == old_views,
            sorted_by(old_views, lex_le_rel()),
            forall|j: int| 0 <= j < p ==> lex_le(#[trigger] old_views[j], x@),
        decreases list.len() - p,
    {
        proof {
            lemma_lex_order(x@, old_views[p as int], x@);
        }
        p = p + 1;
    }
    list.insert(p, x);
    proof {
        let nv = views(list@);
        assert(nv =~= old_views.insert(p as int, x@));
        broadcast use vstd::seq_lib::to_multiset_insert;
        assert forall|i: int, j: int| 0 <= i < j < nv.len() implies #[trigger] lex_le_rel()(
            nv[i],
            nv[j],
        ) by {
            if j < p {
                assert(lex_le_rel()(old_views[i], old_views[j]));
            } else if j == p {
            } else if i < p {
                // nv[i] <= x < old[p] <= old[j - 1]
                lemma_lex_order(nv[i], x@, old_views[p as int]);
                if j - 1 > p {
                    assert(lex_le_rel()(old_views[p as int], old_views[j - 1]));
                    lemma_lex_order(nv[i], old_views[p as int], old_views[j - 1]);
                }
            } else if i == p {
                if j - 1 > p {
                    assert(lex_le_rel()(old_views[p as int], old_views[j - 1]));
                    lemma_lex_order(x@, old_views[p as int], old_views[j - 1]);
                }
            } else {
                assert(lex_le_rel()(old_views[i - 1], old_views[j - 1]));
            }
        }
    }
}

/// The lines in sorted order, as `<[String]>::sort` leaves them.
pub fn sort_lines(lines: &Vec<String>) -> (sorted: Vec<String>)
    ensures
        views(sorted@) == sorted_lines(views(lines@)),
{
    let mut sorted: Vec<String> = Vec::new();
    let mut i: usize = 0;
    assert(views(sorted@) =~= views(lines@).subrange(0, 0));
    while i < lines.len()
        invariant
            i <= lines@.len(),
            sorted_by(views(sorted@), lex_le_rel()),
            views(sorted@).to_multiset() == views(lines@).subrange(0, i as int).to_multiset(),
        decreases lines.len() - i,
    {
        let x = lines[i].clone();
        insert_in_order(&mut sorted, x);
        proof {
            broadcast use vstd::seq_lib::to_multiset_build;
            assert(views(lines@).subrange(0, i + 1) =~= views(lines@).subrange(0, i as int).push(
                lines@[i as int]@,
            ));
        }
        i = i + 1;
    }
    proof {
        assert(views(lines@).subrange(0, i as int) =~= views(lines@));
        lemma_lex_le_total_ordering();
        views(lines@).lemma_sort_by_ensures(lex_le_rel());
        vstd::seq_lib::lemma_sorted_unique(views(sorted@), sorted_lines(views(lines@)), lex_le_rel());
    }
    sorted
}

/// Decides `lex_lt(a@, b@)`.
pub fn lex_less(a: &str, b: &str) -> (less: bool)
    ensures
        less == lex_lt(a@, b@),
{
    let la = a.unicode_len();
    let lb = b.unicode_len();
    let mut i: usize = 0;
    while i < la && i < lb
        invariant
            la == a@.len(),
            lb == b@.len(),
            i <= la,
            i <= lb,
            lex_lt(a@, b@) == lex_lt_from(a@, b@, i as int),
        decreases la - i,
    {
        let ca = a.get_char(i);
        let cb = b.get_char(i);
        if ca != cb {
            return ca < cb;
        }
        i = i + 1;
    }
    i < lb
}


/// Whether `a` and `b` hold the same characters.
pub fn same_text(a: &str, b: &str) -> (same: bool)
    ensures
        same == (a@ == b@),
{
    proof {
        lemma_lex_order(a@, b@, a@);
    }
    !lex_less(a, b) && !lex_less(b, a)
}

// ---------------------------------------------------------------------------
// Substring search
// ---------------------------------------------------------------------------

/// `needle` occurs in `hay` as a contiguous run of characters (the empty
/// needle occurs in every string), which is what `str::contains` with a
/// `&str` pattern decides.
pub open spec fn contains_infix(hay: Seq<char>, needle: Seq<char>) -> bool {
    exists|k: int|
        0 <= k && k + needle.len() <= hay.len() && #[trigger] hay.subrange(k, k + needle.len())
            == needle
}

/// The characters of `s`, in order.
pub fn chars_of(s: &str) -> (chars: Vec<char>)
    ensures
        chars@ == s@,
{
    let n = s.unicode_len();
    let mut chars: Vec<char> = Vec::new();
    let mut i: usize = 0;
    while i < n
        invariant
            n == s@.len(),
            i <= n,
            chars@ == s@.subrange(0, i as int),
        decreases n - i,
    {
        chars.push(s.get_char(i));
        i = i + 1;
        assert(chars@ =~= s@.subrange(0, i as int));
    }
    assert(s@.subrange(0, n as int) =~= s@);
    chars
}

fn infix_at(hay: &Vec<char>, needle: &Vec<char>, k: usize) -> (found: bool)
    requires
        k + needle@.len() <= hay@.len(),
    ensures
        found == (hay@.subrange(k as int, k + needle@.len()) == needle@),
{
    let hay_len = hay.len();
    let mut j: usize = 0;
    while j < needle.len()
        invariant
            hay_len == hay@.len(),
            k + needle@.len() <= hay@.len(),
            j <= needle@.len(),
            forall|t: int| 0 <= t < j ==> hay@[k + t] == needle@[t],
        decreases needle.len() - j,
    {
        if hay[k + j] != needle[j] {
            assert(hay@.subrange(k as int, k + needle@.len())[j as int] != needle@[j as int]);
            return false;
        }
        j = j + 1;
    }
    assert(hay@.subrange(k as int, k + needle@.len()) =~= needle@);
    true
}

/// Decides `contains_infix(hay@, needle@)`.
pub fn contains_chars(hay: &Vec<char>, needle: &Vec<char>) -> (found: bool)
    ensures
        found == contains_infix(hay@, needle@),
{
    if needle.len() > hay.len() {
        return false;
    }
    let last = hay.len() - needle.len();
    let mut k: usize = 0;
    while k < last
        invariant
            last + needle@.len() == hay@.len(),
            k <= last,
            forall|t: int|
                0 <= t < k ==> #[trigger] hay@.subrange(t, t + needle@.len()) != needle@,
        decreases last - k,
    {
        if infix_at(hay, needle, k) {
            return true;
        }
        k = k + 1;
    }
    infix_at(hay, needle, last)
}

// ---------------------------------------------------------------------------
// Case folding
// ---------------------------------------------------------------------------

/// What `str::to_lowercase` returns for a string with the characters `s`.
pub uninterp spec fn lowercase_of(s: Seq<char>) -> Seq<char>;

/// Calls `str::to_lowercase`, which maps each character to its Unicode
/// lowercase form; the contract only names the result (`lowercase_of`),
/// a function of the characters of `s` alone.
#[verifier::external_body]
fn lowercase(s: &str) -> (lower: String)
    ensures
        lower@ == lowercase_of(s@),
{
    s.to_lowercase()
}

/// `c` with `A`..`Z` turned into `a`..`z`.
pub open spec fn ascii_lower_char(c: char) -> char {
    if 'A' <= c && c <= 'Z' {
        ((c as int) + 32) as char
    } else {
        c
    }
}

/// The lowercase form of `s`, as `str::to_lowercase` gives it: for an ASCII
/// string each letter `A`..`Z` becomes `a`..`z` and every other character
/// stays; for any other string it is what `str::to_lowercase` returns.
pub open spec fn case_folded(s: Seq<char>) -> Seq<char> {
    if is_ascii_chars(s) {
        s.map_values(|c: char| ascii_lower_char(c))
    } else {
        lowercase_of(s)
    }
}

/// The characters of the lowercase form of `s` (`case_folded`).
pub fn fold_case(s: &str) -> (folded: Vec<char>)
    ensures
        folded@ == case_folded(s@),
{
    if s.is_ascii() {
        let chars = chars_of(s);
        let mut folded: Vec<char> = Vec::new();
        let mut i: usize = 0;
        while i < chars.len()
            invariant
                chars@ == s@,
                is_ascii_chars(s@),
                i <= chars@.len(),
                folded@ == chars@.subrange(0, i as int).map_values(|c: char| ascii_lower_char(c)),
            decreases chars.len() - i,
        {
            let c = chars[i];
            let lower = if 'A' <= c && c <= 'Z' {
                let code = c as u8;
                assert(code as int == c as int);
                (code + 32) as char
            } else {
                c
            };
            folded.push(lower);
            i = i + 1;
            assert(folded@ =~= chars@.subrange(0, i as int).map_values(
                |c: char| ascii_lower_char(c),
            ));
        }
        assert(chars@.subrange(0, i as int) =~= chars@);
        folded
    } else {
        chars_of(lowercase(s).as_str())
    }
}

/// Lowercasing an ASCII string keeps every position: the result is as long
/// as the string, each letter `A`..`Z` moves up by 32 to `a`..`z`, and every
/// other character is unchanged.
pub proof fn lemma_fold_ascii(s: Seq<char>)
    requires
        is_ascii_chars(s),
    ensures
        case_folded(s).len() == s.len(),
        forall|i: int|
            0 <= i < s.len() ==> (#[trigger] case_folded(s)[i]) as int == if 65 <= s[i] as int
                && s[i] as int <= 90 {
                s[i] as int + 32
            } else {
                s[i] as int
            },
{
}

/// A text that occurs in an ASCII string still occurs in it after both are
/// lowercased, at the same place.
pub proof fn lemma_fold_keeps_occurrence(s: Seq<char>, q: Seq<char>, k: int)
    requires
        is_ascii_chars(s),
        is_ascii_chars(q),
        0 <= k,
        k + q.len() <= s.len(),
        s.subrange(k, k + q.len()) == q,
    ensures
        case_folded(s).subrange(k, k + q.len()) == case_folded(q),
        contains_infix(case_folded(s), case_folded(q)),
{
    assert(case_folded(s).subrange(k, k + q.len()) =~= case_folded(q)) by {
        assert forall|j: int| 0 <= j < q.len() implies case_folded(s).subrange(k, k + q.len())[j]
            == case_folded(q)[j] by {
            assert(s[k + j] == q[j]);
        }
    }
}

// ---------------------------------------------------------------------------
// Decimal rendering
// ---------------------------------------------------------------------------

/// The ASCII digit for `d < 10`.
pub open spec fn digit_char(d: nat) -> char {
    if d == 0 {
        '0'
    } else if d == 1 {
        '1'
    } else if d == 2 {
        '2'
    } else if d == 3 {
        '3'
    } else if d == 4 {
        '4'
    } else if d == 5 {
        '5'
    } else if d == 6 {
        '6'
    } else if d == 7 {
        '7'
    } else if d == 8 {
        '8'
    } else {
        '9'
    }
}

/// Base-ten digits of `n`, most significant first, without leading zeros
/// (`0` is the single digit `0`): what `Display` prints for an unsigned integer.
pub open spec fn decimal(n: nat) -> Seq<char>
    decreases n,
{
    if n < 10 {
        seq![digit_char(n)]
    } else {
        decimal(n / 10).push(digit_char(n % 10))
    }
}

fn digit_str(d: u64) -> (s: &'static str)
    requires
        d < 10,
    ensures
        s@ == seq![digit_char(d as nat)],
{
    proof {
        reveal_strlit("0");
        reveal_strlit("1");
        reveal_strlit("2");
        reveal_strlit("3");
        reveal_strlit("4");
        reveal_strlit("5");
        reveal_strlit("6");
        reveal_strlit("7");
        reveal_strlit("8");
        reveal_strlit("9");
    }
    if d == 0 {
        "0"
    } else if d == 1 {
        "1"
    } else if d == 2 {
        "2"
    } else if d == 3 {
        "3"
    } else if d == 4 {
        "4"
    } else if d == 5 {
        "5"
    } else if d == 6 {
        "6"
    } else if d == 7 {
        "7"
    } else if d == 8 {
        "8"
    } else {
        "9"
    }
}

/// `n` written in base ten.
pub fn decimal_string(n: u64) -> (s: String)
    ensures
        s@ == decimal(n as nat),
    decreases n,
{
    if n < 10 {
        String::from_str(digit_str(n))
    } else {
        let mut s = decimal_string(n / 10);
        s.append(digit_str(n % 10));
        s
    }
}

// ---------------------------------------------------------------------------
// Joining lines
// ---------------------------------------------------------------------------

/// The lines joined with a newline between each two (`[T]::join("\n")`).
pub open spec fn join_lines(lines: Seq<Seq<char>>) -> Seq<char>
    decreases lines.len(),
{
    if lines.len() == 0 {
        Seq::empty()
    } else if lines.len() == 1 {
        lines[0]
    } else {
        join_lines(lines.drop_last()) + "\n"@ + lines.last()
    }
}

/// The views of a vector of strings.
pub open spec fn views(v: Seq<String>) -> Seq<Seq<char>> {
    v.map_values(|s: String| s@)
}

/// Joins `lines` with `"\n"` between each two.
pub fn join_with_newlines(lines: &Vec<String>) -> (joined: String)
    ensures
        joined@ == join_lines(views(lines@)),
{
    let mut joined = String::new();
    let mut i: usize = 0;
    while i < lines.len()
        invariant
            i <= lines@.len(),
            joined@ == join_lines(views(lines@).subrange(0, i as int)),
        decreases lines.len() - i,
    {
        let ghost before = views(lines@).subrange(0, i as int);
        if i > 0 {
            joined.append("\n");
        }
        joined.append(lines[i].as_str());
        i = i + 1;
        proof {
            let after = views(lines@).subrange(0, i as int);
            assert(after.drop_last() =~= before);
            if i == 1 {
                assert(join_lines(before) == Seq::<char>::empty());
                assert(joined@ =~= after[0]);
            }
        }
    }
    assert(views(lines@).subrange(0, lines@.len() as int) =~= views(lines@));
    joined
}

/// Adding a line to a non-empty list appends a newline and that line to
/// the joined text.
pub proof fn lemma_join_push(lines: Seq<Seq<char>>, line: Seq<char>)
    requires
        lines.len() > 0,
    ensures
        join_lines(lines.push(line)) == join_lines(lines) + seq!['\n'] + line,
{
    reveal_strlit("\n");
    assert(lines.push(line).drop_last() =~= lines);
}

/// Total length of the lines.
pub open spec fn total_len(lines: Seq<Seq<char>>) -> int
    decreases lines.len(),
{
    if lines.len() == 0 {
        0
    } else {
        total_len(lines.drop_last()) + lines.last().len()
    }
}

/// The joined text holds every character of every line and one newline
/// between each two lines, nothing else.
pub proof fn lemma_join_len(lines: Seq<Seq<char>>)
    requires
        lines.len() > 0,
    ensures
        join_lines(lines).len() == total_len(lines) + lines.len() - 1,
    decreases lines.len(),
{
    reveal_strlit("\n");
    assert("\n"@.len() == 1);
    if lines.len() > 1 {
        lemma_join_len(lines.drop_last());
        assert(join_lines(lines) == join_lines(lines.drop_last()) + "\n"@ + lines.last());
    } else {
        assert(lines.drop_last() =~= Seq::<Seq<char>>::empty());
        assert(total_len(lines.drop_last()) == 0);
        assert(join_lines(lines) == lines[0]);
    }
}

/// The number that the digits `s` (base ten, most significant first) spell.
pub open spec fn digits_value(s: Seq<char>) -> int
    decreases s.len(),
{
    if s.len() == 0 {
        0
    } else {
        10 * digits_value(s.drop_last()) + (s.last() as int - '0' as int)
    }
}

proof fn lemma_digit_char(d: nat)
    requires
        d < 10,
    ensures
        digit_char(d) as int == 48 + d,
{
}

/// `decimal(n)` is the base-ten numeral of `n`: it consists of digits, has
/// no leading zero unless it is the single digit `0`, and reads back as `n`.
pub proof fn lemma_decimal_reads_back(n: nat)
    ensures
        digits_value(decimal(n)) == n,
        decimal(n).len() >= 1,
        forall|i: int| 0 <= i < decimal(n).len() ==> 48 <= #[trigger] decimal(n)[i] as int <= 57,
        n >= 10 ==> decimal(n)[0] != '0',
    decreases n,
{
    assert('0' as int == 48);
    if n < 10 {
        lemma_digit_char(n);
        assert(decimal(n).drop_last() =~= Seq::<char>::empty());
        assert(digits_value(decimal(n).drop_last()) == 0);
        assert(decimal(n).last() == digit_char(n));
    } else {
        lemma_decimal_reads_back(n / 10);
        lemma_digit_char(n % 10);
        assert(decimal(n).drop_last() =~= decimal(n / 10));
        assert(decimal(n).last() == digit_char(n % 10));
        assert(digits_value(decimal(n)) == 10 * digits_value(decimal(n / 10)) + (n % 10));
        assert(10 * (n / 10) + n % 10 == n);
        if n / 10 < 10 {
            lemma_digit_char(n / 10);
        }
    }
}

/// Appending a digit to a numeral multiplies its value by ten and adds the digit.
pub proof fn lemma_decimal_append_digit(m: nat, d: nat)
    requires
        m >= 1,
        d < 10,
    ensures
        decimal(10 * m + d) == decimal(m).push(digit_char(d)),
{
    assert((10 * m + d) / 10 == m);
    assert((10 * m + d) % 10 == d);
}

/// A proper prefix sorts first, and otherwise the first differing character
/// decides, by Unicode scalar value.
pub proof fn lemma_lex_lt_meaning(a: Seq<char>, b: Seq<char>, k: int)
    requires
        0 <= k <= a.len(),
        k <= b.len(),
        a.subrange(0, k) == b.subrange(0, k),
    ensures
        k == a.len() && k < b.len() ==> lex_lt(a, b),
        k < a.len() && k < b.len() && (a[k] as int) < (b[k] as int) ==> lex_lt(a, b),
        k < a.len() && k < b.len() && (a[k] as int) > (b[k] as int) ==> !lex_lt(a, b),
{
    lemma_lt_from_prefix(a, b, 0, k);
}

proof fn lemma_lt_from_prefix(a: Seq<char>, b: Seq<char>, i: int, k: int)
    requires
        0 <= i <= k,
        k <= a.len(),
        k <= b.len(),
        a.subrange(0, k) == b.subrange(0, k),
    ensures
        lex_lt_from(a, b, i) == lex_lt_from(a, b, k),
    decreases k - i,
{
    if i < k {
        assert(a.subrange(0, k)[i] == a[i]);
        assert(b.subrange(0, k)[i] == b[i]);
        lemma_lt_from_prefix(a, b, i + 1, k);
    }
}

/// A text occurs in a string exactly when the string is some text, then it,
/// then some more text.
pub proof fn lemma_infix_meaning(before: Seq<char>, needle: Seq<char>, after: Seq<char>, hay: Seq<char>)
    ensures
        contains_infix(before + needle + after, needle),
        contains_infix(hay, needle) ==> exists|a: Seq<char>, b: Seq<char>| hay == a + needle + b,
{
    let whole = before + needle + after;
    assert(whole.subrange(before.len() as int, (before.len() + needle.len()) as int) =~= needle);
    if contains_infix(hay, needle) {
        let k = choose|k: int|
            0 <= k && k + needle.len() <= hay.len() && #[trigger] hay.subrange(k, k + needle.len())
                == needle;
        let a = hay.subrange(0, k);
        let b = hay.subrange(k + needle.len(), hay.len() as int);
        assert(hay =~= a + needle + b);
    }
}

} // verus!
