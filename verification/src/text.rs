//! Character-level text operations shared by the verifier, the diff
//! analyzer and the generator: whitespace classification, splitting a
//! message into lines, splitting into whitespace-delimited words,
//! trimming, prefix tests and substring search.

use vstd::prelude::*;

verus! {

/// A character with the Unicode `White_Space` property, the set that
/// `str::split_whitespace` and `str::trim` delimit on.
pub open spec fn is_ws_char(c: char) -> bool {
    c == ' ' || c == '\t' || c == '\n' || c == '\u{b}' || c == '\u{c}' || c == '\r'
        || c == '\u{85}' || c == '\u{a0}' || c == '\u{1680}'
        || (0x2000 <= c as u32 && c as u32 <= 0x200a)
        || c == '\u{2028}' || c == '\u{2029}' || c == '\u{202f}' || c == '\u{205f}'
        || c == '\u{3000}'
}

pub fn is_ws(c: char) -> (r: bool)
    ensures
        r == is_ws_char(c),
{
    c == ' ' || c == '\t' || c == '\n' || c == '\u{b}' || c == '\u{c}' || c == '\r'
        || c == '\u{85}' || c == '\u{a0}' || c == '\u{1680}'
        || (0x2000 <= c as u32 && c as u32 <= 0x200a)
        || c == '\u{2028}' || c == '\u{2029}' || c == '\u{202f}' || c == '\u{205f}'
        || c == '\u{3000}'
}

/// Index of the first newline in `s`, or `s.len()` if there is none.
pub open spec fn first_nl(s: Seq<char>) -> int
    decreases s.len(),
{
    if s.len() == 0 {
        0
    } else if s[0] == '\n' {
        0
    } else {
        1 + first_nl(s.skip(1))
    }
}

/// Pins `first_nl` down from what a scan observes.
pub proof fn lemma_first_nl_val(s: Seq<char>, k: int)
    requires
        0 <= k <= s.len(),
        forall|j: int| 0 <= j < k ==> s[j] != '\n',
        k < s.len() ==> s[k] == '\n',
    ensures
        first_nl(s) == k,
    decreases s.len(),
{
    if s.len() == 0 {
    } else if s[0] == '\n' {
        assert(k == 0);
    } else {
        assert(k >= 1);
        assert forall|j: int| 0 <= j < k - 1 implies s.skip(1)[j] != '\n' by {
            assert(s.skip(1)[j] == s[j + 1]);
        }
        if k - 1 < s.skip(1).len() {
            assert(s.skip(1)[k - 1] == s[k]);
        }
        lemma_first_nl_val(s.skip(1), k - 1);
    }
}

/// Drops one trailing carriage return, as `str::lines` does at a `\r\n`
/// line ending.
pub open spec fn chomp_cr(l: Seq<char>) -> Seq<char> {
    if l.len() > 0 && l[l.len() - 1] == '\r' {
        l.take(l.len() - 1)
    } else {
        l
    }
}

/// The lines of `s`, as `str::lines` yields them: terminated by `\n` or
/// `\r\n` (the terminator stripped), with the final terminator optional.
pub open spec fn lines_of(s: Seq<char>) -> Seq<Seq<char>>
    decreases s.len(),
{
    if s.len() == 0 {
        Seq::empty()
    } else {
        let i = first_nl(s);
        if i < 0 || i >= s.len() {
            seq![s]
        } else {
            seq![chomp_cr(s.take(i))] + lines_of(s.skip(i + 1))
        }
    }
}

/// Splits a message into its lines.
pub fn split_lines(s: &str) -> (r: Vec<String>)
    ensures
        r.deep_view() == lines_of(s@),
{
    let n = s.unicode_len();
    let mut r: Vec<String> = Vec::new();
    let mut start: usize = 0;
    proof {
        assert(s@.skip(0) == s@);
    }
    while start < n
        invariant
            start <= n,
            n == s@.len(),
            lines_of(s@) == r.deep_view() + lines_of(s@.skip(start as int)),
        decreases n - start,
    {
        let ghost rest = s@.skip(start as int);
        let mut j: usize = start;
        while j < n && s.get_char(j) != '\n'
            invariant
                start <= j <= n,
                n == s@.len(),
                forall|k: int| start <= k < j ==> s@[k] != '\n',
            decreases n - j,
        {
            j += 1;
        }
        proof {
            assert forall|k: int| 0 <= k < j - start implies rest[k] != '\n' by {
                assert(rest[k] == s@[start + k]);
            }
            if j < n {
                assert(rest[j - start] == s@[j as int]);
            }
            lemma_first_nl_val(rest, j - start as int);
        }
        if j < n {
            // terminated line: strip the newline, and a preceding '\r'
            let end: usize = if j > start && s.get_char(j - 1) == '\r' {
                j - 1
            } else {
                j
            };
            let line = String::from_str(s.substring_char(start, end));
            proof {
                let i = first_nl(rest);
                assert(rest.take(i) == s@.subrange(start as int, j as int));
                assert(chomp_cr(rest.take(i)) == s@.subrange(start as int, end as int)) by {
                    if j > start && s@[j - 1] == '\r' {
                        assert(rest.take(i)[i - 1] == '\r');
                        assert(rest.take(i).take(i - 1) == s@.subrange(
                            start as int,
                            j - 1,
                        ));
                    } else {
                        if i > 0 {
                            assert(rest.take(i)[i - 1] == s@[j - 1]);
                        }
                    }
                }
                assert(rest.skip(i + 1) == s@.skip(j + 1));
                assert(lines_of(rest) == seq![chomp_cr(rest.take(i))] + lines_of(
                    s@.skip(j + 1),
                ));
            }
            let ghost old_r = r.deep_view();
            r.push(line);
            proof {
                assert(r.deep_view() =~= old_r + seq![line@]);
                assert(r.deep_view() + lines_of(s@.skip(j + 1)) =~= old_r + lines_of(rest));
            }
            start = j + 1;
        } else {
            // unterminated final line
            let line = String::from_str(s.substring_char(start, n));
            proof {
                assert(rest == s@.subrange(start as int, n as int));
                assert(lines_of(rest) == seq![rest]);
            }
            let ghost old_r = r.deep_view();
            r.push(line);
            proof {
                assert(r.deep_view() =~= old_r + seq![line@]);
                assert(s@.skip(n as int).len() == 0);
                assert(r.deep_view() + lines_of(s@.skip(n as int)) =~= old_r + lines_of(rest));
            }
            start = n;
        }
    }
    proof {
        assert(s@.skip(n as int).len() == 0);
        assert(lines_of(s@) =~= r.deep_view());
    }
    r
}

/// Index of the first whitespace character in `s`, or `s.len()` if none.
pub open spec fn first_ws(s: Seq<char>) -> int
    decreases s.len(),
{
    if s.len() == 0 {
        0
    } else if is_ws_char(s[0]) {
        0
    } else {
        1 + first_ws(s.skip(1))
    }
}

pub proof fn lemma_first_ws_bounds(s: Seq<char>)
    ensures
        0 <= first_ws(s) <= s.len(),
        first_ws(s) < s.len() ==> is_ws_char(s[first_ws(s)]),
        forall|j: int| 0 <= j < first_ws(s) ==> !is_ws_char(s[j]),
    decreases s.len(),
{
    if s.len() == 0 {
    } else if is_ws_char(s[0]) {
    } else {
        lemma_first_ws_bounds(s.skip(1));
        assert forall|j: int| 0 <= j < first_ws(s) implies !is_ws_char(s[j]) by {
            if j > 0 {
                assert(s.skip(1)[j - 1] == s[j]);
            }
        }
        if first_ws(s) < s.len() {
            assert(s.skip(1)[first_ws(s) - 1] == s[first_ws(s)]);
        }
    }
}

/// Pins `first_ws` down from what a scan observes.
pub proof fn lemma_first_ws_val(s: Seq<char>, k: int)
    requires
        0 <= k <= s.len(),
        forall|j: int| 0 <= j < k ==> !is_ws_char(s[j]),
        k < s.len() ==> is_ws_char(s[k]),
    ensures
        first_ws(s) == k,
    decreases s.len(),
{
    if s.len() == 0 {
    } else if is_ws_char(s[0]) {
        assert(k == 0);
    } else {
        assert(k >= 1);
        assert forall|j: int| 0 <= j < k - 1 implies !is_ws_char(s.skip(1)[j]) by {
            assert(s.skip(1)[j] == s[j + 1]);
        }
        if k - 1 < s.skip(1).len() {
            assert(s.skip(1)[k - 1] == s[k]);
        }
        lemma_first_ws_val(s.skip(1), k - 1);
    }
}

/// The whitespace-delimited words of `s`, in order, empties dropped:
/// what `str::split_whitespace` yields.
pub open spec fn words_of(s: Seq<char>) -> Seq<Seq<char>>
    decreases s.len(),
{
    if s.len() == 0 {
        Seq::empty()
    } else if is_ws_char(s[0]) {
        words_of(s.skip(1))
    } else {
        let k = first_ws(s);
        if k < 1 || k > s.len() {
            Seq::empty()
        } else {
            seq![s.take(k)] + words_of(s.skip(k))
        }
    }
}

/// The first whitespace-delimited token of `s`, empty if there is none.
pub open spec fn first_token(s: Seq<char>) -> Seq<char> {
    if words_of(s).len() == 0 {
        Seq::empty()
    } else {
        words_of(s)[0]
    }
}

/// Splits `s` into its whitespace-delimited words.
pub fn split_words(s: &str) -> (r: Vec<String>)
    ensures
        r.deep_view() == words_of(s@),
{
    let n = s.unicode_len();
    let mut r: Vec<String> = Vec::new();
    let mut i: usize = 0;
    proof {
        assert(s@.skip(0) == s@);
    }
    while i < n
        invariant
            i <= n,
            n == s@.len(),
            words_of(s@) == r.deep_view() + words_of(s@.skip(i as int)),
        decreases n - i,
    {
        let ghost rest = s@.skip(i as int);
        if is_ws(s.get_char(i)) {
            proof {
                assert(rest[0] == s@[i as int]);
                assert(rest.skip(1) == s@.skip(i + 1));
            }
            i += 1;
        } else {
            let mut j: usize = i + 1;
            while j < n && !is_ws(s.get_char(j))
                invariant
                    i < j <= n,
                    n == s@.len(),
                    forall|k: int| i <= k < j ==> !is_ws_char(s@[k]),
                decreases n - j,
            {
                j += 1;
            }
            proof {
                assert forall|k: int| 0 <= k < j - i implies !is_ws_char(rest[k]) by {
                    assert(rest[k] == s@[i + k]);
                }
                if j < n {
                    assert(rest[j - i] == s@[j as int]);
                }
                lemma_first_ws_val(rest, j - i as int);
                assert(rest.take(j - i as int) == s@.subrange(i as int, j as int));
                assert(rest.skip(j - i as int) == s@.skip(j as int));
            }
            let w = String::from_str(s.substring_char(i, j));
            let ghost old_r = r.deep_view();
            r.push(w);
            proof {
                assert(r.deep_view() =~= old_r + seq![w@]);
                assert(words_of(rest) == seq![rest.take(j - i as int)] + words_of(
                    s@.skip(j as int),
                ));
                assert(r.deep_view() + words_of(s@.skip(j as int)) =~= old_r + words_of(rest));
            }
            i = j;
        }
    }
    proof {
        assert(words_of(s@.skip(n as int)).len() == 0);
        assert(words_of(s@) =~= r.deep_view());
    }
    r
}

/// `s` with leading whitespace dropped.
pub open spec fn trim_start_of(s: Seq<char>) -> Seq<char>
    decreases s.len(),
{
    if s.len() == 0 {
        s
    } else if is_ws_char(s[0]) {
        trim_start_of(s.skip(1))
    } else {
        s
    }
}

/// `s` with trailing whitespace dropped.
pub open spec fn trim_end_of(s: Seq<char>) -> Seq<char>
    decreases s.len(),
{
    if s.len() == 0 {
        s
    } else if is_ws_char(s[s.len() - 1]) {
        trim_end_of(s.take(s.len() - 1))
    } else {
        s
    }
}

/// `s` with whitespace dropped at both ends, as `str::trim` returns it.
pub open spec fn trim_of(s: Seq<char>) -> Seq<char> {
    trim_end_of(trim_start_of(s))
}

/// Trims whitespace from both ends of `s`.
pub fn trim_str(s: &str) -> (r: String)
    ensures
        r@ == trim_of(s@),
{
    let n = s.unicode_len();
    let mut a: usize = 0;
    proof {
        assert(s@.skip(0) == s@);
    }
    while a < n && is_ws(s.get_char(a))
        invariant
            a <= n,
            n == s@.len(),
            trim_start_of(s@) == trim_start_of(s@.skip(a as int)),
        decreases n - a,
    {
        proof {
            let rest = s@.skip(a as int);
            assert(rest[0] == s@[a as int]);
            assert(rest.skip(1) == s@.skip(a + 1));
        }
        a += 1;
    }
    let ghost head = s@.skip(a as int);
    if a == n {
        proof {
            assert(head.len() == 0);
            assert(trim_of(s@) =~= Seq::<char>::empty());
        }
        return String::new();
    }
    proof {
        assert(head[0] == s@[a as int]);
        assert(trim_start_of(head) == head);
    }
    let mut b: usize = n;
    proof {
        assert(head.take(n - a as int) == head);
    }
    while b > a && is_ws(s.get_char(b - 1))
        invariant
            a <= b <= n,
            n == s@.len(),
            head == s@.skip(a as int),
            trim_end_of(head) == trim_end_of(head.take(b - a as int)),
        decreases b,
    {
        proof {
            let part = head.take(b - a as int);
            assert(part[part.len() - 1] == s@[b - 1]);
            assert(part.take(part.len() - 1) == head.take(b - 1 - a as int));
        }
        b -= 1;
    }
    proof {
        let part = head.take(b - a as int);
        if b == a {
            assert(part.len() == 0);
        } else {
            assert(part[part.len() - 1] == s@[b - 1]);
        }
        assert(trim_end_of(part) == part);
        assert(part == s@.subrange(a as int, b as int));
    }
    String::from_str(s.substring_char(a, b))
}

/// `p` is a prefix of `s`.
pub open spec fn starts_with(s: Seq<char>, p: Seq<char>) -> bool {
    p.len() <= s.len() && s.take(p.len() as int) == p
}

pub fn starts_with_str(s: &str, p: &str) -> (r: bool)
    ensures
        r == starts_with(s@, p@),
{
    let m = p.unicode_len();
    let n = s.unicode_len();
    if m > n {
        return false;
    }
    let mut k: usize = 0;
    while k < m
        invariant
            k <= m <= n,
            m == p@.len(),
            n == s@.len(),
            forall|t: int| 0 <= t < k ==> s@[t] == p@[t],
        decreases m - k,
    {
        if s.get_char(k) != p.get_char(k) {
            proof {
                assert(s@.take(m as int)[k as int] == s@[k as int]);
            }
            return false;
        }
        k += 1;
    }
    proof {
        assert(s@.take(m as int) =~= p@);
    }
    true
}

/// `needle` occurs somewhere in `hay` as a contiguous substring.
pub open spec fn contains_sub(hay: Seq<char>, needle: Seq<char>) -> bool {
    exists|i: int|
        0 <= i && i + needle.len() <= hay.len() && #[trigger] hay.subrange(i, i + needle.len())
            == needle
}

pub fn contains_str(hay: &str, needle: &str) -> (r: bool)
    ensures
        r == contains_sub(hay@, needle@),
{
    let m = needle.unicode_len();
    let n = hay.unicode_len();
    if m > n {
        return false;
    }
    if m == 0 {
        proof {
            assert(hay@.subrange(0, 0 + needle@.len() as int) =~= needle@);
            assert(contains_sub(hay@, needle@));
        }
        return true;
    }
    let mut i: usize = 0;
    while i <= n - m
        invariant
            m <= n,
            m == needle@.len(),
            n == hay@.len(),
            1 <= m,
            i <= n - m + 1,
            forall|i2: int| 0 <= i2 < i ==> #[trigger] hay@.subrange(i2, i2 + m as int)
                != needle@,
        decreases n - i,
    {
        let mut k: usize = 0;
        let mut matches: bool = true;
        while k < m && matches
            invariant
                k <= m,
                i + m <= n,
                m == needle@.len(),
                n == hay@.len(),
                matches ==> forall|t: int| 0 <= t < k ==> hay@[i + t] == needle@[t],
                !matches ==> hay@.subrange(i as int, i + m as int) != needle@,
            decreases m - k + (if matches { 1int } else { 0int }),
        {
            if hay.get_char(i + k) != needle.get_char(k) {
                matches = false;
                proof {
                    assert(hay@.subrange(i as int, i + m as int)[k as int] == hay@[i + k]);
                }
            } else {
                k += 1;
            }
        }
        if matches {
            proof {
                assert forall|t: int| 0 <= t < m implies hay@.subrange(i as int, i + m as int)[t]
                    == needle@[t] by {
                    assert(hay@[i + t] == needle@[t]);
                }
                assert(hay@.subrange(i as int, i + m as int) =~= needle@);
            }
            return true;
        }
        i += 1;
    }
    proof {
        assert forall|i2: int| 0 <= i2 && i2 + needle@.len() <= hay@.len() implies #[trigger] hay@
            .subrange(i2, i2 + m as int) != needle@ by {
            assert(i2 < i);
        }
    }
    false
}

/// The parts joined with `sep` between each pair.
pub open spec fn join_with(parts: Seq<Seq<char>>, sep: Seq<char>) -> Seq<char>
    decreases parts.len(),
{
    if parts.len() == 0 {
        Seq::empty()
    } else if parts.len() == 1 {
        parts[0]
    } else {
        join_with(parts.drop_last(), sep) + sep + parts.last()
    }
}

pub fn join_strings(parts: &Vec<String>, sep: &str) -> (r: String)
    ensures
        r@ == join_with(parts.deep_view(), sep@),
{
    let mut r = String::new();
    let mut i: usize = 0;
    while i < parts.len()
        invariant
            i <= parts.len(),
            r@ == join_with(parts.deep_view().take(i as int), sep@),
        decreases parts.len() - i,
    {
        if i > 0 {
            r.append(sep);
        }
        r.append(parts[i].as_str());
        proof {
            let pv = parts.deep_view();
            assert(pv.take(i + 1).drop_last() =~= pv.take(i as int));
            assert(pv.take(i + 1).last() == pv[i as int]);
            if i == 0 {
                assert(r@ =~= pv.take(1)[0]);
            }
        }
        i += 1;
    }
    proof {
        assert(parts.deep_view().take(parts.len() as int) =~= parts.deep_view());
    }
    r
}

/// The decimal digit `d` as a character.
pub open spec fn digit_char(d: int) -> char {
    if d == 0 {
        '0'
    } else if d == 1 {
        '1'
    } else if d == 2 {
        '2'
    } else if d == 3 {
        '3'
    } else if d == 4 {
        '4'
    } else if d == 5 {
        '5'
    } else if d == 6 {
        '6'
    } else if d == 7 {
        '7'
    } else if d == 8 {
        '8'
    } else {
        '9'
    }
}

/// The decimal digits of `n`, most significant first, no sign and no
/// leading zeros (a single `'0'` for zero).
pub open spec fn dec_of(n: nat) -> Seq<char>
    decreases n,
{
    if n < 10 {
        seq![digit_char(n as int)]
    } else {
        dec_of(n / 10).push(digit_char((n % 10) as int))
    }
}

fn digit_str(d: usize) -> (r: &'static str)
    requires
        d < 10,
    ensures
        r@ == seq![digit_char(d as int)],
{
    let r: &'static str = match d {
        0 => "0",
        1 => "1",
        2 => "2",
        3 => "3",
        4 => "4",
        5 => "5",
        6 => "6",
        7 => "7",
        8 => "8",
        _ => "9",
    };
    proof {
        reveal_strlit("0");
        reveal_strlit("1");
        reveal_strlit("2");
        reveal_strlit("3");
        reveal_strlit("4");
        reveal_strlit("5");
        reveal_strlit("6");
        reveal_strlit("7");
        reveal_strlit("8");
        reveal_strlit("9");
        assert(r@ =~= seq![digit_char(d as int)]);
    }
    r
}

/// Writes `n` in decimal.
pub fn dec_string(n: usize) -> (r: String)
    ensures
        r@ == dec_of(n as nat),
    decreases n,
{
    if n < 10 {
        String::from_str(digit_str(n))
    } else {
        let mut r = dec_string(n / 10);
        r.append(digit_str(n % 10));
        proof {
            assert(r@ =~= dec_of(n as nat));
        }
        r
    }
}

} // verus!
