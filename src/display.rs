//! Small text renderings used when contracts and sessions are shown.
use vstd::prelude::*;
use vstd::string::{StrSliceExecFns, StringExecFns};
use crate::text::string_from_chars;

verus! {

/// At most `max_len` characters: longer text keeps its first `max_len - 3`
/// characters followed by `...`.
pub open spec fn truncated(s: Seq<char>, max_len: nat) -> Seq<char> {
    if s.len() <= max_len {
        s
    } else {
        let keep: int = if max_len >= 3 { max_len - 3 } else { 0 };
        s.subrange(0, keep) + "..."@
    }
}

pub fn truncate(s: &str, max_len: usize) -> (r: String)
    ensures
        r@ == truncated(s@, max_len as nat),
{
    let n = s.unicode_len();
    if n <= max_len {
        return String::from_str(s);
    }
    let keep: usize = if max_len >= 3 { max_len - 3 } else { 0 };
    let mut r = String::from_str(s.substring_char(0, keep));
    r.append("...");
    r
}

/// Whitespace among ASCII characters.
pub open spec fn is_space(c: char) -> bool {
    c == ' ' || ('\t' <= c <= '\r')
}

pub open spec fn ascii_text(s: Seq<char>) -> bool {
    forall|i: int| 0 <= i < s.len() ==> (s[i] as u32) < 128
}

pub open spec fn trim_start(s: Seq<char>) -> Seq<char>
    decreases s.len(),
{
    if s.len() > 0 && is_space(s[0]) {
        trim_start(s.drop_first())
    } else {
        s
    }
}

pub open spec fn trim_end(s: Seq<char>) -> Seq<char>
    decreases s.len(),
{
    if s.len() > 0 && is_space(s.last()) {
        trim_end(s.drop_last())
    } else {
        s
    }
}

/// Up to the first line break, without a carriage return before it.
pub open spec fn first_line(s: Seq<char>) -> Seq<char>
    decreases s.len(),
{
    if s.len() == 0 {
        s
    } else if s[0] == '\n' {
        Seq::empty()
    } else if s[0] == '\r' && s.len() > 1 && s[1] == '\n' {
        Seq::empty()
    } else {
        seq![s[0]] + first_line(s.drop_first())
    }
}

/// The first line of the trimmed text, shortened to `max_len` characters.
pub open spec fn line_summary(s: Seq<char>, max_len: nat) -> Seq<char> {
    let line = first_line(trim_end(trim_start(s)));
    if line.len() <= max_len {
        line
    } else {
        line.subrange(0, max_len - 3) + "..."@
    }
}

fn space_char(c: char) -> (r: bool)
    ensures
        r == is_space(c),
{
    c == ' ' || ('\t' <= c && c <= '\r')
}

/// The first line of the trimmed text, shortened with `...` to `max_len`
/// characters.
pub fn truncate_line(s: &str, max_len: usize) -> (r: String)
    requires
        ascii_text(s@),
        max_len >= 3 || first_line(trim_end(trim_start(s@))).len() <= max_len,
    ensures
        r@ == line_summary(s@, max_len as nat),
{
    let n = s.unicode_len();
    let mut chars: Vec<char> = Vec::new();
    let mut i: usize = 0;
    while i < n
        invariant
            n == s@.len(),
            0 <= i <= n,
            chars@ == s@.subrange(0, i as int),
        decreases n - i,
    {
        chars.push(s.get_char(i));
        i = i + 1;
        proof {
            assert(chars@ =~= s@.subrange(0, i as int));
        }
    }
    proof {
        assert(chars@ =~= s@);
    }
    while chars.len() > 0 && space_char(chars[0])
        invariant
            trim_start(s@) == trim_start(chars@),
        decreases chars@.len(),
    {
        let ghost before = chars@;
        chars.remove(0);
        proof {
            assert(chars@ =~= before.drop_first());
        }
    }
    proof {
        assert(trim_start(chars@) == chars@);
    }
    let ghost started = chars@;
    while chars.len() > 0 && space_char(chars[chars.len() - 1])
        invariant
            trim_end(started) == trim_end(chars@),
        decreases chars@.len(),
    {
        let ghost before = chars@;
        chars.pop();
        proof {
            assert(chars@ =~= before.drop_last());
        }
    }
    proof {
        assert(trim_end(chars@) == chars@);
    }
    let ghost trimmed = chars@;
    let mut line: Vec<char> = Vec::new();
    let mut j: usize = 0;
    let m = chars.len();
    let mut done = false;
    proof {
        assert(trimmed.subrange(0, m as int) =~= trimmed);
        assert(line@ + first_line(trimmed) =~= first_line(trimmed));
    }
    while j < m && !done
        invariant
            m == chars@.len(),
            chars@ == trimmed,
            0 <= j <= m,
            !done ==> line@ + first_line(trimmed.subrange(j as int, m as int)) == first_line(trimmed),
            done ==> line@ == first_line(trimmed),
        decreases m - j + (if done { 0int } else { 1int }),
    {
        let c = chars[j];
        let ghost rest = trimmed.subrange(j as int, m as int);
        proof {
            assert(rest.drop_first() =~= trimmed.subrange(j + 1, m as int));
        }
        if c == '\n' || (c == '\r' && j + 1 < m && chars[j + 1] == '\n') {
            proof {
                assert(first_line(rest) =~= Seq::<char>::empty());
                assert(line@ + Seq::<char>::empty() =~= line@);
            }
            done = true;
        } else {
            line.push(c);
            proof {
                assert(first_line(rest) == seq![c] + first_line(rest.drop_first()));
                assert(line@ + first_line(trimmed.subrange(j + 1, m as int)) =~= (line@.drop_last()
                    + first_line(rest)));
            }
            j = j + 1;
        }
    }
    proof {
        if !done {
            assert(trimmed.subrange(m as int, m as int) =~= Seq::<char>::empty());
            assert(line@ + Seq::<char>::empty() =~= line@);
        }
    }
    if line.len() <= max_len {
        return string_from_chars(&line);
    }
    let ghost full = line@;
    line.truncate(max_len - 3);
    line.push('.');
    line.push('.');
    line.push('.');
    proof {
        reveal_strlit("...");
        assert(line@ =~= full.subrange(0, max_len - 3) + "..."@);
    }
    string_from_chars(&line)
}

/// The base-36 digits of a number, most significant first.
pub open spec fn base36(n: nat) -> Seq<char>
    decreases n,
{
    if n < 36 {
        seq![base36_digit(n)]
    } else {
        base36(n / 36).push(base36_digit(n % 36))
    }
}

pub open spec fn base36_digit(d: nat) -> char {
    if d < 10 {
        (('0' as nat) + d) as char
    } else {
        (('a' as nat) + (d - 10)) as char
    }
}

fn digit36(d: u64) -> (r: char)
    requires
        d < 36,
    ensures
        r == base36_digit(d as nat),
{
    let digits = "0123456789abcdefghijklmnopqrstuvwxyz";
    proof {
        reveal_strlit("0123456789abcdefghijklmnopqrstuvwxyz");
    }
    digits.get_char(d as usize)
}

/// Appends the base-36 rendering of `n`.
fn push_base36(out: &mut Vec<char>, n: u64)
    ensures
        final(out)@ == old(out)@ + base36(n as nat),
    decreases n,
{
    if n >= 36 {
        push_base36(out, n / 36);
    }
    out.push(digit36(n % 36));
    proof {
        if n >= 36 {
            assert(final(out)@ =~= old(out)@ + base36(n as nat));
        }
    }
}

/// The lower-case base-36 rendering of `n`.
pub fn to_base36(n: u64) -> (r: String)
    ensures
        r@ == base36(n as nat),
{
    let mut digits: Vec<char> = Vec::new();
    push_base36(&mut digits, n);
    proof {
        assert(digits@ =~= base36(n as nat));
    }
    string_from_chars(&digits)
}

} // verus!
