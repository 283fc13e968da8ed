//! Character-level helpers shared by the text formats (Excellon drill
//! files, aperture-macro expressions, file names).
use vstd::prelude::*;
use vstd::string::StringExecFns;

verus! {

broadcast use vstd::string::group_string_axioms;

/// ASCII decimal digit.
pub open spec fn is_digit(c: char) -> bool {
    '0' <= c && c <= '9'
}

/// Numeric value of an ASCII digit.
pub open spec fn digit_value(c: char) -> nat {
    (c as nat - '0' as nat) as nat
}

/// Value of a string of decimal digits (most significant first).
pub open spec fn digits_value(s: Seq<char>) -> nat
    decreases s.len(),
{
    if s.len() == 0 {
        0
    } else {
        digits_value(s.drop_last()) * 10 + digit_value(s.last())
    }
}

pub open spec fn all_digits(s: Seq<char>) -> bool {
    forall|i: int| 0 <= i < s.len() ==> is_digit(#[trigger] s[i])
}

/// What `u32::from_str` accepts: an optional `+`, then one or more
/// decimal digits whose value fits in a `u32`.
pub open spec fn u32_from_str(s: Seq<char>) -> Option<u32> {
    let d = if s.len() > 0 && s[0] == '+' { s.skip(1) } else { s };
    if d.len() > 0 && all_digits(d) && digits_value(d) <= u32::MAX {
        Some(digits_value(d) as u32)
    } else {
        None
    }
}

/// `needle` occurs in `hay` as a contiguous run.
pub open spec fn seq_contains(hay: Seq<char>, needle: Seq<char>) -> bool {
    exists|i: int| 0 <= i <= hay.len() - needle.len() && #[trigger] hay.subrange(i, i + needle.len()) == needle
}

/// Number of occurrences of `c` in `s`.
pub open spec fn count_char(s: Seq<char>, c: char) -> nat
    decreases s.len(),
{
    if s.len() == 0 {
        0
    } else {
        count_char(s.drop_last(), c) + if s.last() == c { 1nat } else { 0nat }
    }
}

/// Index of the first occurrence of `c` in `s`, if any.
pub open spec fn first_index(s: Seq<char>, c: char) -> Option<int> {
    if exists|i: int| 0 <= i < s.len() && s[i] == c {
        Some(choose|i: int| 0 <= i < s.len() && s[i] == c && forall|j: int| 0 <= j < i ==> s[j] != c)
    } else {
        None
    }
}

/// Characters of a run: class 0 is the decimal digits, class 1 adds
/// `.`, class 2 adds `.`, `-` and `+`.
pub open spec fn in_class(c: char, class: u8) -> bool {
    is_digit(c) || (class >= 1 && c == '.') || (class >= 2 && (c == '-' || c == '+'))
}

/// Length of the longest prefix of `s` whose characters are all in `class`.
pub open spec fn run_len(s: Seq<char>, class: u8) -> nat
    decreases s.len(),
{
    if s.len() == 0 || !in_class(s[0], class) {
        0
    } else {
        1 + run_len(s.skip(1), class)
    }
}

/// The longest prefix of `s` whose characters are all in `class`.
pub open spec fn run_of(s: Seq<char>, class: u8) -> Seq<char> {
    s.take(run_len(s, class) as int)
}

/// The characters of a string, in order.
pub fn chars_of(s: &str) -> (v: Vec<char>)
    ensures
        v@ == s@,
{
    let mut v: Vec<char> = Vec::new();
    for c in it: s.chars()
        invariant
            it.seq() == s@,
            v@ == it.seq().take(it.index() as int),
    {
        v.push(c);
    }
    v
}

/// The characters `s[from..to]`.
pub fn slice_chars(s: &Vec<char>, from: usize, to: usize) -> (r: Vec<char>)
    requires
        from <= to <= s.len(),
    ensures
        r@ == s@.subrange(from as int, to as int),
{
    let mut r: Vec<char> = Vec::new();
    let mut i = from;
    while i < to
        invariant
            from <= i <= to <= s.len(),
            r@ == s@.subrange(from as int, i as int),
        decreases to - i,
    {
        r.push(s[i]);
        i += 1;
    }
    r
}

/// Whether `needle` occurs in `hay`.
pub fn contains_chars(hay: &Vec<char>, needle: &Vec<char>) -> (r: bool)
    ensures
        r == seq_contains(hay@, needle@),
{
    let n = needle.len();
    let h = hay.len();
    if n > h {
        return false;
    }
    let mut i: usize = 0;
    while i <= h - n
        invariant
            n == needle@.len(),
            h == hay@.len(),
            n <= h,
            i <= h - n + 1,
            forall|k: int| 0 <= k < i ==> #[trigger] hay@.subrange(k, k + n) != needle@,
        decreases h - n + 1 - i,
    {
        let mut j: usize = 0;
        let mut same = true;
        while j < n
            invariant
                n == needle@.len(),
                h == hay@.len(),
                i + n <= h,
                j <= n,
                same == (forall|m: int| 0 <= m < j ==> hay@[i + m] == needle@[m]),
            decreases n - j,
        {
            if hay[i + j] != needle[j] {
                same = false;
            }
            j += 1;
        }
        if same {
            assert(hay@.subrange(i as int, i + n) =~= needle@);
            return true;
        }
        assert(hay@.subrange(i as int, i + n) != needle@) by {
            let m = choose|m: int| 0 <= m < n && hay@[i + m] != needle@[m];
            assert(hay@.subrange(i as int, i + n)[m] == hay@[i + m]);
        }
        i += 1;
    }
    false
}

/// Whether `needle` occurs in `hay`, the needle given as a string.
pub fn contains_str(hay: &Vec<char>, needle: &str) -> (r: bool)
    ensures
        r == seq_contains(hay@, needle@),
{
    let nv = chars_of(needle);
    contains_chars(hay, &nv)
}

/// Whether `a` and `b` hold the same characters.
pub fn chars_eq_str(a: &Vec<char>, b: &str) -> (r: bool)
    ensures
        r == (a@ == b@),
{
    let bv = chars_of(b);
    if a.len() != bv.len() {
        return false;
    }
    let mut i: usize = 0;
    while i < a.len()
        invariant
            a@.len() == bv@.len(),
            bv@ == b@,
            i <= a@.len(),
            forall|k: int| 0 <= k < i ==> a@[k] == bv@[k],
        decreases a.len() - i,
    {
        if a[i] != bv[i] {
            return false;
        }
        i += 1;
    }
    assert(a@ =~= bv@);
    true
}

/// How many times `c` occurs in `s`.
pub fn count_occurrences(s: &Vec<char>, c: char) -> (r: usize)
    ensures
        r == count_char(s@, c),
{
    let mut n: usize = 0;
    let mut i: usize = 0;
    while i < s.len()
        invariant
            i <= s@.len(),
            n == count_char(s@.take(i as int), c),
            n <= i,
        decreases s.len() - i,
    {
        assert(s@.take(i + 1).drop_last() =~= s@.take(i as int));
        if s[i] == c {
            n += 1;
        }
        i += 1;
    }
    assert(s@.take(s@.len() as int) =~= s@);
    n
}

/// Index of the first occurrence of `c` in `s`.
pub fn find_char(s: &Vec<char>, c: char) -> (r: Option<usize>)
    ensures
        match r {
            Some(i) => first_index(s@, c) == Some(i as int) && i < s@.len() && s@[i as int] == c && forall|j: int|
                0 <= j < i ==> s@[j] != c,
            None => first_index(s@, c) is None,
        },
{
    let mut i: usize = 0;
    while i < s.len()
        invariant
            i <= s@.len(),
            forall|j: int| 0 <= j < i ==> s@[j] != c,
        decreases s.len() - i,
    {
        if s[i] == c {
            assert(exists|k: int| 0 <= k < s@.len() && s@[k] == c);
            let ghost w = choose|k: int| 0 <= k < s@.len() && s@[k] == c && forall|j: int| 0 <= j < k ==> s@[j] != c;
            assert(w == i as int) by {
                if w < i { } else if w > i { assert(s@[i as int] == c); }
            }
            return Some(i);
        }
        i += 1;
    }
    None
}

proof fn lemma_digits_value_push(s: Seq<char>, c: char)
    ensures
        digits_value(s.push(c)) == digits_value(s) * 10 + digit_value(c),
{
    assert(s.push(c).drop_last() =~= s);
}

/// `u32::from_str` on a run of characters, written out for the decimal
/// case: an optional `+`, then one or more digits that fit in a `u32`.
pub fn parse_u32(s: &Vec<char>) -> (r: Option<u32>)
    ensures
        r == u32_from_str(s@),
{
    let start: usize = if s.len() > 0 && s[0] == '+' { 1 } else { 0 };
    let ghost d = if s@.len() > 0 && s@[0] == '+' { s@.skip(1) } else { s@ };
    assert(d =~= s@.skip(start as int));
    if start >= s.len() {
        assert(d.len() == 0);
        return None;
    }
    let mut value: u64 = 0;
    let mut i = start;
    while i < s.len()
        invariant
            start <= i <= s@.len(),
            d =~= s@.skip(start as int),
            d == (if s@.len() > 0 && s@[0] == '+' { s@.skip(1) } else { s@ }),
            all_digits(s@.subrange(start as int, i as int)),
            value == digits_value(s@.subrange(start as int, i as int)),
            value <= u32::MAX,
        decreases s.len() - i,
    {
        let c = s[i];
        if !('0' <= c && c <= '9') {
            assert(d[i - start] == c);
            assert(!all_digits(d));
            assert(u32_from_str(s@) is None);
            return None;
        }
        let dv = (c as u32 - '0' as u32) as u64;
        proof {
            lemma_digits_value_push(s@.subrange(start as int, i as int), c);
            assert(s@.subrange(start as int, i + 1) =~= s@.subrange(start as int, i as int).push(c));
        }
        value = value * 10 + dv;
        if value > 0xffff_ffff {
            proof {
                assert(d.take((i + 1 - start) as int) =~= s@.subrange(start as int, i + 1));
                if all_digits(d) {
                    lemma_digits_prefix_bound(d, (i + 1 - start) as int);
                    assert(digits_value(d) > u32::MAX);
                }
            }
            assert(u32_from_str(s@) is None);
            return None;
        }
        i += 1;
    }
    assert(s@.subrange(start as int, s@.len() as int) =~= d);
    Some(value as u32)
}

/// A longer run of digits is worth at least as much as its prefix.
proof fn lemma_digits_prefix_bound(d: Seq<char>, k: int)
    requires
        0 <= k <= d.len(),
        all_digits(d),
    ensures
        digits_value(d) >= digits_value(d.take(k)),
    decreases d.len(),
{
    if k < d.len() {
        assert(all_digits(d.drop_last()));
        lemma_digits_prefix_bound(d.drop_last(), k);
        assert(d.drop_last().take(k) =~= d.take(k));
    } else {
        assert(d.take(k) =~= d);
    }
}

/// The run of characters of `class` that starts at `from`.
pub fn take_run(s: &Vec<char>, from: usize, class: u8) -> (r: Vec<char>)
    requires
        from <= s@.len(),
    ensures
        r@ == run_of(s@.skip(from as int), class),
{
    let ghost t = s@.skip(from as int);
    let mut i = from;
    while i < s.len() && char_in_class(s[i], class)
        invariant
            from <= i <= s@.len(),
            forall|k: int| from <= k < i ==> #[trigger] in_class(s@[k], class),
        decreases s.len() - i,
    {
        i += 1;
    }
    proof {
        assert forall|j: int| 0 <= j < i - from implies #[trigger] in_class(t[j], class) by {
            assert(t[j] == s@[from + j]);
        }
        if i < s.len() {
            assert(t[i - from] == s@[i as int]);
        }
        lemma_run_len_exact(t, class, (i - from) as int);
        assert(t.take((i - from) as int) =~= s@.subrange(from as int, i as int));
    }
    slice_chars(s, from, i)
}

/// Whether `c` belongs to `class` (see `in_class`).
pub fn char_in_class(c: char, class: u8) -> (r: bool)
    ensures
        r == in_class(c, class),
{
    ('0' <= c && c <= '9') || (class >= 1 && c == '.') || (class >= 2 && (c == '-' || c == '+'))
}

proof fn lemma_run_len_exact(t: Seq<char>, class: u8, k: int)
    requires
        0 <= k <= t.len(),
        forall|j: int| 0 <= j < k ==> in_class(#[trigger] t[j], class),
        k == t.len() || !in_class(t[k], class),
    ensures
        run_len(t, class) == k,
    decreases k,
{
    if k > 0 {
        assert forall|j: int| 0 <= j < k - 1 implies in_class(#[trigger] t.skip(1)[j], class) by {
            assert(t.skip(1)[j] == t[j + 1]);
            assert(in_class(t[j + 1], class));
        }
        if k < t.len() {
            assert(t.skip(1)[k - 1] == t[k]);
        }
        lemma_run_len_exact(t.skip(1), class, k - 1);
    }
}

/// A line without the `\r` of a `\r\n` ending.
pub open spec fn without_cr(l: Seq<char>) -> Seq<char> {
    if l.len() > 0 && l.last() == '\r' {
        l.drop_last()
    } else {
        l
    }
}

/// The lines of a text: split at each `\n`, a `\r` right before it
/// dropped with it; a final line ending adds no empty line.
#[verifier::opaque]
pub open spec fn split_lines(s: Seq<char>) -> Seq<Seq<char>>
    decreases s.len(),
{
    if s.len() == 0 {
        Seq::empty()
    } else {
        match first_index(s, '\n') {
            Some(i) if 0 <= i < s.len() => seq![without_cr(s.take(i))] + split_lines(s.skip(i + 1)),
            _ => seq![s],
        }
    }
}

/// Where the first line of a text ends at a `\n`, the lines are that
/// line and the lines of the rest.
proof fn lemma_split_lines_at(t: Seq<char>, k: int)
    requires
        0 <= k < t.len(),
        t[k] == '\n',
        forall|j: int| 0 <= j < k ==> t[j] != '\n',
    ensures
        split_lines(t) == seq![without_cr(t.take(k))] + split_lines(t.skip(k + 1)),
{
    reveal(split_lines);
    assert(0 <= k < t.len() && t[k] == '\n' && forall|j: int| 0 <= j < k ==> t[j] != '\n');
    let c = choose|i: int| 0 <= i < t.len() && t[i] == '\n' && forall|j: int| 0 <= j < i ==> t[j] != '\n';
    assert(0 <= c < t.len() && t[c] == '\n' && forall|j: int| 0 <= j < c ==> t[j] != '\n');
    if c < k {
        assert(t[c] != '\n');
    }
    if c > k {
        assert(t[k] != '\n');
    }
    assert(first_index(t, '\n') == Some(k));
}

/// A non-empty text without `\n` is one line.
proof fn lemma_split_lines_last(t: Seq<char>)
    requires
        t.len() > 0,
        forall|j: int| 0 <= j < t.len() ==> t[j] != '\n',
    ensures
        split_lines(t) == seq![t],
{
    reveal(split_lines);
    assert(first_index(t, '\n') is None);
}

/// One line more of `lines_of`: the line that ends at the `\n` at `i`.
proof fn lemma_lines_step(s: Seq<char>, start: int, i: int, end: int, before: Seq<Seq<char>>)
    requires
        0 <= start <= i < s.len(),
        s[i] == '\n',
        forall|j: int| start <= j < i ==> s[j] != '\n',
        end == (if i > start && s[i - 1] == '\r' { i - 1 } else { i }),
        before + split_lines(s.skip(start)) == split_lines(s),
    ensures
        before.push(s.subrange(start, end)) + split_lines(s.skip(i + 1)) == split_lines(s),
{
    let t = s.skip(start);
    let k = i - start;
    assert forall|j: int| 0 <= j < k implies t[j] != '\n' by {
        assert(t[j] == s[start + j]);
    }
    lemma_split_lines_at(t, k);
    assert(t.take(k) =~= s.subrange(start, i));
    assert(s.subrange(start, end) =~= without_cr(t.take(k)));
    assert(t.skip(k + 1) =~= s.skip(i + 1));
    assert(before.push(s.subrange(start, end)) + split_lines(s.skip(i + 1)) =~= before + (seq![
        without_cr(t.take(k)),
    ] + split_lines(t.skip(k + 1))));
}

/// The last line of `lines_of`, which no `\n` ends.
proof fn lemma_lines_last(s: Seq<char>, start: int, before: Seq<Seq<char>>)
    requires
        0 <= start <= s.len(),
        forall|j: int| start <= j < s.len() ==> s[j] != '\n',
        before + split_lines(s.skip(start)) == split_lines(s),
    ensures
        start < s.len() ==> before.push(s.subrange(start, s.len() as int)) == split_lines(s),
        start == s.len() ==> before == split_lines(s),
{
    let t = s.skip(start);
    if start < s.len() {
        assert forall|j: int| 0 <= j < t.len() implies t[j] != '\n' by {
            assert(t[j] == s[start + j]);
        }
        lemma_split_lines_last(t);
        assert(t =~= s.subrange(start, s.len() as int));
        assert(before + seq![t] =~= before.push(t));
    } else {
        reveal(split_lines);
        assert(t =~= Seq::<char>::empty());
        assert(before + Seq::<Seq<char>>::empty() =~= before);
    }
}

/// The lines of a text (see `split_lines`), each as an owned string, as
/// `str::lines` gives them.
pub(crate) fn lines_of(s: &str) -> (r: Vec<String>)
    ensures
        r@.map_values(|l: String| l@) == split_lines(s@),
{
    let chars = chars_of(s);
    let n = chars.len();
    let mut out: Vec<String> = Vec::new();
    let mut start: usize = 0;
    let mut i: usize = 0;
    assert(s@.skip(0) =~= s@);
    assert(out@.map_values(|l: String| l@) + split_lines(s@) =~= split_lines(s@));
    while i < n
        invariant
            chars@ == s@,
            n == s@.len(),
            start <= i <= n,
            forall|j: int| start <= j < i ==> s@[j] != '\n',
            out@.map_values(|l: String| l@) + split_lines(s@.skip(start as int)) == split_lines(s@),
        decreases n - i,
    {
        if chars[i] == '\n' {
            let end = if i > start && chars[i - 1] == '\r' {
                i - 1
            } else {
                i
            };
            let line = String::from_str(s.substring_char(start, end));
            let ghost before = out@.map_values(|l: String| l@);
            proof {
                lemma_lines_step(s@, start as int, i as int, end as int, before);
            }
            out.push(line);
            assert(out@.map_values(|l: String| l@) =~= before.push(line@));
            start = i + 1;
        }
        i += 1;
    }
    let ghost before = out@.map_values(|l: String| l@);
    proof {
        lemma_lines_last(s@, start as int, before);
    }
    if start < n {
        let line = String::from_str(s.substring_char(start, n));
        out.push(line);
        assert(out@.map_values(|l: String| l@) =~= before.push(line@));
    }
    out
}

/// Whether a character has the Unicode `White_Space` property, which is
/// what `char::is_whitespace`, `str::trim` and `str::split_whitespace`
/// go by: tab, line feed, vertical tab, form feed, carriage return,
/// space, next line, no-break space, ogham space mark, the spaces from
/// en quad to hair space, line separator, paragraph separator, narrow
/// no-break space, medium mathematical space and ideographic space.
pub open spec fn white_space(c: char) -> bool {
    let n = c as int;
    ||| 0x09 <= n <= 0x0D
    ||| n == 0x20
    ||| n == 0x85
    ||| n == 0xA0
    ||| n == 0x1680
    ||| 0x2000 <= n <= 0x200A
    ||| n == 0x2028
    ||| n == 0x2029
    ||| n == 0x202F
    ||| n == 0x205F
    ||| n == 0x3000
}

/// A text with its leading and trailing white space removed.
pub open spec fn trimmed(s: Seq<char>) -> Seq<char>
    decreases s.len(),
{
    if s.len() > 0 && white_space(s[0]) {
        trimmed(s.skip(1))
    } else if s.len() > 0 && white_space(s.last()) {
        trimmed(s.drop_last())
    } else {
        s
    }
}

/// Calls `str::trim`, which, as its documentation says, removes leading
/// and trailing white space in the sense of `White_Space`.
#[verifier::external_body]
pub(crate) fn trim_str(s: &str) -> (r: String)
    ensures
        r@ == trimmed(s@),
{
    s.trim().to_string()
}

/// The words of `s`, the word in progress being `word`: the non-empty
/// runs of characters between white space, in order.
pub open spec fn words_from(s: Seq<char>, word: Seq<char>) -> Seq<Seq<char>>
    decreases s.len(),
{
    let done: Seq<Seq<char>> = if word.len() > 0 { seq![word] } else { Seq::empty() };
    if s.len() == 0 {
        done
    } else if white_space(s[0]) {
        done + words_from(s.skip(1), Seq::empty())
    } else {
        words_from(s.skip(1), word.push(s[0]))
    }
}

/// The words of a text: its non-empty runs of characters between white
/// space, in order.
pub open spec fn whitespace_words(s: Seq<char>) -> Seq<Seq<char>> {
    words_from(s, Seq::empty())
}

/// The digit character of a value below ten.
pub open spec fn digit_char(d: nat) -> char {
    if d == 0 { '0' } else if d == 1 { '1' } else if d == 2 { '2' } else if d == 3 { '3' } else if d == 4 {
        '4'
    } else if d == 5 { '5' } else if d == 6 { '6' } else if d == 7 { '7' } else if d == 8 { '8' } else { '9' }
}

/// The decimal notation of a number, without leading zeros, as
/// `to_string` writes an unsigned integer.
pub open spec fn decimal(n: nat) -> Seq<char>
    decreases n,
{
    if n < 10 {
        seq![digit_char(n)]
    } else {
        decimal(n / 10).push(digit_char(n % 10))
    }
}

/// At least two decimal digits, with a leading zero below ten, as
/// `{:02}` writes an unsigned integer.
pub open spec fn two_digits(n: nat) -> Seq<char> {
    if n < 10 { seq!['0', digit_char(n)] } else { decimal(n) }
}

fn digit_str(d: u64) -> (r: &'static str)
    requires
        d < 10,
    ensures
        r@ == seq![digit_char(d as nat)],
{
    proof {
        reveal_strlit("0");
        reveal_strlit("1");
        reveal_strlit("2");
        reveal_strlit("3");
        reveal_strlit("4");
        reveal_strlit("5");
        reveal_strlit("6");
        reveal_strlit("7");
        reveal_strlit("8");
        reveal_strlit("9");
    }
    if d == 0 { "0" } else if d == 1 { "1" } else if d == 2 { "2" } else if d == 3 { "3" } else if d == 4 {
        "4"
    } else if d == 5 { "5" } else if d == 6 { "6" } else if d == 7 { "7" } else if d == 8 { "8" } else { "9" }
}

/// Appends the decimal notation of `n` to `out`.
pub fn push_decimal(out: &mut String, n: u64)
    ensures
        final(out)@ == old(out)@ + decimal(n as nat),
    decreases n,
{
    if n < 10 {
        out.append(digit_str(n));
    } else {
        push_decimal(out, n / 10);
        out.append(digit_str(n % 10));
        proof {
            assert(old(out)@ + decimal((n / 10) as nat) + seq![digit_char((n % 10) as nat)] =~= old(out)@ + decimal(
                n as nat,
            ));
        }
    }
}

/// The decimal notation of `n`.
pub fn decimal_string(n: u64) -> (r: String)
    ensures
        r@ == decimal(n as nat),
{
    let mut s = String::new();
    push_decimal(&mut s, n);
    assert(Seq::<char>::empty() + decimal(n as nat) =~= decimal(n as nat));
    s
}

/// Appends `n` with at least two digits, with a leading zero below ten.
pub fn push_two_digits(out: &mut String, n: u64)
    ensures
        final(out)@ == old(out)@ + two_digits(n as nat),
{
    if n < 10 {
        out.append("0");
        out.append(digit_str(n));
        proof {
            reveal_strlit("0");
            assert(old(out)@ + "0"@ + seq![digit_char(n as nat)] =~= old(out)@ + two_digits(n as nat));
        }
    } else {
        push_decimal(out, n);
    }
}

/// Facts that hold of every final path component: it is not empty,
/// holds no `/` and is not `..`.
pub open spec fn component_facts(name: Seq<char>) -> bool {
    &&& name.len() > 0
    &&& forall|i: int| 0 <= i < name.len() ==> name[i] != '/'
    &&& name != seq!['.', '.']
}

/// The text after the last `/` of a path (all of it when it has none).
pub open spec fn last_component(p: Seq<char>) -> Seq<char>
    decreases p.len(),
{
    if p.len() == 0 || p.last() == '/' {
        Seq::empty()
    } else {
        last_component(p.drop_last()).push(p.last())
    }
}

/// A path that every platform splits at `/` alone: it holds no `\\` and
/// no `:`, and does not begin with two `/`, so it has no Windows prefix
/// (such as a drive or a network share).
pub open spec fn portable_path(p: Seq<char>) -> bool {
    &&& forall|i: int| 0 <= i < p.len() ==> p[i] != '\\' && p[i] != ':'
    &&& !(p.len() >= 2 && p[0] == '/' && p[1] == '/')
}

/// The file name of a path split at `/`: its last part once trailing
/// `/` and `.` parts are set aside, or none when there is no such part
/// or it is `..`.
pub open spec fn final_name(p: Seq<char>) -> Option<Seq<char>>
    decreases p.len(),
{
    if p.len() == 0 {
        None
    } else if p.last() == '/' || last_component(p) == seq!['.'] {
        final_name(p.drop_last())
    } else if last_component(p) == seq!['.', '.'] {
        None
    } else {
        Some(last_component(p))
    }
}

/// The file name of a path as text: its final name, or empty when it
/// has none.
pub open spec fn name_or_empty(p: Seq<char>) -> Seq<char> {
    match final_name(p) {
        Some(n) => n,
        None => Seq::empty(),
    }
}

/// A path made of `/` alone: the root, which has no final component.
pub open spec fn only_slashes(p: Seq<char>) -> bool {
    p.len() > 0 && forall|i: int| 0 <= i < p.len() ==> p[i] == '/'
}

/// What is known of the file name `name` given for `path` (empty when
/// there is none): it is empty or a final component; for a portable
/// path it is its final name (see `final_name`); for the root it is
/// empty.
pub open spec fn names_file(path: Seq<char>, name: Seq<char>) -> bool {
    &&& name.len() == 0 || component_facts(name)
    &&& portable_path(path) ==> name == name_or_empty(path)
    &&& only_slashes(path) ==> name.len() == 0
}

/// Index of the last `.` of a name, if any.
pub open spec fn last_dot(n: Seq<char>) -> Option<int>
    decreases n.len(),
{
    if n.len() == 0 {
        None
    } else if n.last() == '.' {
        Some(n.len() - 1)
    } else {
        last_dot(n.drop_last())
    }
}

/// The stem of a file name: the part before its last `.`, or all of it
/// when it has no `.` or its only one leads.
pub open spec fn file_stem(n: Seq<char>) -> Seq<char> {
    match last_dot(n) {
        Some(k) => if k > 0 {
            n.take(k)
        } else {
            n
        },
        None => n,
    }
}

/// Calls `std::path::Path::file_name` on `path`. As its documentation
/// says, it gives the final component of the path when that is a
/// normal one, and none when the path ends in `..` or has no
/// components; repeated and trailing `/` are ignored and `.` parts are
/// normalised away. So a returned name is a final component: not empty,
/// without `/`, not `..`. For a portable path (see `portable_path`) the
/// result is its `final_name`, on every platform; a path of `/` alone
/// has none. For other paths, which name comes back depends on the
/// platform's path rules and is left unsaid.
#[verifier::external_body]
pub(crate) fn file_name_of(path: &str) -> (r: Option<String>)
    ensures
        r matches Some(n) ==> component_facts(n@),
        portable_path(path@) ==> match final_name(path@) {
            Some(n) => r is Some && r.unwrap()@ == n,
            None => r is None,
        },
        only_slashes(path@) ==> r is None,
{
    std::path::Path::new(path).file_name().map(|n| n.to_string_lossy().into_owned())
}

/// Calls `std::path::Path::file_stem` on `path`. When it returns a
/// stem, the stem holds no `/`. As its documentation says, the stem is
/// taken from the file name: all of it when it has no `.` or begins with
/// its only `.`, else the part before its last `.`; there is none when
/// there is no file name. So for a portable path it is the stem of its
/// `final_name`, or none when it has none, and a path of `/` alone has
/// none. For other paths it depends on the platform's path rules and is
/// left unsaid.
#[verifier::external_body]
pub(crate) fn file_stem_of(path: &str) -> (r: Option<String>)
    ensures
        r matches Some(n) ==> forall|i: int| 0 <= i < n@.len() ==> n@[i] != '/',
        portable_path(path@) ==> match final_name(path@) {
            Some(n) => r is Some && r.unwrap()@ == file_stem(n),
            None => r is None,
        },
        only_slashes(path@) ==> r is None,
{
    std::path::Path::new(path).file_stem().and_then(|n| n.to_str()).map(|n| n.to_owned())
}

} // verus!
