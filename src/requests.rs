//! Reading the textual forms that front-ends hand to the daemon: status
//! names, resource keys and context fragments.
use vstd::prelude::*;
use vstd::string::{StrSliceExecFns, StringExecFns};
use crate::lifecycle::{status_name, ContractStatus};
use crate::modules::ContextFragment;
use crate::resources::ResourceKey;
use crate::sessions::lower;
use crate::text::{decimal, push_decimal, str_equal, to_ascii_lower_char};

verus! {

/// Input text that could not be read.
#[derive(Debug, Clone, PartialEq, Eq)]
pub struct InputError {
    pub message: String,
}

/// The status a name stands for: the storage names, and the older spellings
/// without underscores or with one `l` in `canceled`; ASCII case is ignored.
pub open spec fn status_named(name: Seq<char>) -> Option<ContractStatus> {
    let n = lower(name);
    if n == "pending"@ {
        Some(ContractStatus::Pending)
    } else if n == "ready"@ {
        Some(ContractStatus::Ready)
    } else if n == "claimed"@ {
        Some(ContractStatus::Claimed)
    } else if n == "executing"@ {
        Some(ContractStatus::Executing)
    } else if n == "verifying"@ {
        Some(ContractStatus::Verifying)
    } else if n == "completed"@ {
        Some(ContractStatus::Completed)
    } else if n == "failed"@ {
        Some(ContractStatus::Failed)
    } else if n == "rolling_back"@ || n == "rollingback"@ {
        Some(ContractStatus::RollingBack)
    } else if n == "rolled_back"@ || n == "rolledback"@ {
        Some(ContractStatus::RolledBack)
    } else if n == "cancelled"@ || n == "canceled"@ {
        Some(ContractStatus::Cancelled)
    } else {
        None
    }
}

fn lowered_string(s: &str) -> (r: Vec<char>)
    ensures
        r@ == lower(s@),
{
    let n = s.unicode_len();
    let mut out: Vec<char> = Vec::new();
    let mut i: usize = 0;
    while i < n
        invariant
            n == s@.len(),
            0 <= i <= n,
            out@ == lower(s@.subrange(0, i as int)),
        decreases n - i,
    {
        let c = to_ascii_lower_char(s.get_char(i));
        out.push(c);
        proof {
            assert(lower(s@.subrange(0, i + 1)) =~= lower(s@.subrange(0, i as int)).push(c));
        }
        i = i + 1;
    }
    proof {
        assert(s@.subrange(0, n as int) =~= s@);
    }
    out
}

fn chars_equal(a: &Vec<char>, b: &str) -> (r: bool)
    ensures
        r == (a@ == b@),
{
    let n = b.unicode_len();
    if a.len() != n {
        return false;
    }
    let mut i: usize = 0;
    while i < n
        invariant
            n == b@.len(),
            n == a@.len(),
            0 <= i <= n,
            forall|j: int| 0 <= j < i ==> a@[j] == b@[j],
        decreases n - i,
    {
        if a[i] != b.get_char(i) {
            return false;
        }
        i = i + 1;
    }
    proof {
        assert(a@ =~= b@);
    }
    true
}

fn unknown(prefix: &str, raw: &str) -> (r: InputError) {
    let mut message = String::from_str(prefix);
    message.append(raw);
    InputError { message }
}

/// Reads a status name.
pub fn parse_contract_status(raw: &str) -> (r: Result<ContractStatus, InputError>)
    ensures
        status_named(raw@) matches Some(s) ==> r == Ok::<ContractStatus, InputError>(s),
        status_named(raw@) is None ==> r is Err,
{
    let n = lowered_string(raw);
    if chars_equal(&n, "pending") {
        Ok(ContractStatus::Pending)
    } else if chars_equal(&n, "ready") {
        Ok(ContractStatus::Ready)
    } else if chars_equal(&n, "claimed") {
        Ok(ContractStatus::Claimed)
    } else if chars_equal(&n, "executing") {
        Ok(ContractStatus::Executing)
    } else if chars_equal(&n, "verifying") {
        Ok(ContractStatus::Verifying)
    } else if chars_equal(&n, "completed") {
        Ok(ContractStatus::Completed)
    } else if chars_equal(&n, "failed") {
        Ok(ContractStatus::Failed)
    } else if chars_equal(&n, "rolling_back") || chars_equal(&n, "rollingback") {
        Ok(ContractStatus::RollingBack)
    } else if chars_equal(&n, "rolled_back") || chars_equal(&n, "rolledback") {
        Ok(ContractStatus::RolledBack)
    } else if chars_equal(&n, "cancelled") || chars_equal(&n, "canceled") {
        Ok(ContractStatus::Cancelled)
    } else {
        Err(unknown("unknown status: ", raw))
    }
}

/// The storage name of a status.
pub fn status_to_str(status: ContractStatus) -> (r: &'static str)
    ensures
        r@ == status_name(status),
{
    status.as_db_str()
}

pub open spec fn is_digit(c: char) -> bool {
    '0' <= c <= '9'
}

/// The number that a run of decimal digits spells.
pub open spec fn digits_value(s: Seq<char>) -> nat
    decreases s.len(),
{
    if s.len() == 0 {
        0
    } else {
        digits_value(s.drop_last()) * 10 + ((s.last() as nat) - ('0' as nat)) as nat
    }
}

/// The `u16` a decimal text spells: an optional `+`, then one or more
/// digits, with a value that fits.
pub open spec fn u16_text(s: Seq<char>) -> Option<u16> {
    u16_digits(if s.len() > 0 && s[0] == '+' { s.drop_first() } else { s })
}

/// The `u16` a run of digits spells, if it is one and fits.
pub open spec fn u16_digits(digits: Seq<char>) -> Option<u16> {
    if digits.len() > 0 && all_digits(digits) && digits_value(digits) <= u16::MAX {
        Some(digits_value(digits) as u16)
    } else {
        None
    }
}

pub open spec fn all_digits(s: Seq<char>) -> bool {
    forall|i: int| 0 <= i < s.len() ==> is_digit(#[trigger] s[i])
}

/// Reads a decimal `u16`.
pub fn parse_u16(s: &str) -> (r: Option<u16>)
    ensures
        r == u16_text(s@),
{
    let n = s.unicode_len();
    let start: usize = if n > 0 && s.get_char(0) == '+' { 1 } else { 0 };
    let ghost digits = if s@.len() > 0 && s@[0] == '+' { s@.drop_first() } else { s@ };
    proof {
        assert(digits =~= s@.subrange(start as int, n as int));
    }
    if start == n {
        return None;
    }
    let mut value: u32 = 0;
    let mut i: usize = start;
    proof {
        assert(s@.subrange(start as int, start as int) =~= Seq::<char>::empty());
    }
    while i < n
        invariant
            n == s@.len(),
            start <= i <= n,
            digits == s@.subrange(start as int, n as int),
            digits == (if s@.len() > 0 && s@[0] == '+' { s@.drop_first() } else { s@ }),
            forall|k: int| start <= k < i ==> is_digit(#[trigger] s@[k]),
            value == digits_value(s@.subrange(start as int, i as int)),
            value <= u16::MAX,
        decreases n - i,
    {
        let c = s.get_char(i);
        if !('0' <= c && c <= '9') {
            proof {
                assert(digits[i - start] == c);
                assert(!is_digit(digits[i - start]));
                assert(!all_digits(digits));
                assert(u16_digits(digits) is None);
            }
            return None;
        }
        let d: u32 = (c as u32) - ('0' as u32);
        proof {
            assert(s@.subrange(start as int, i + 1).drop_last() =~= s@.subrange(start as int, i as int));
        }
        if value > 6553 || (value == 6553 && d > 5) {
            proof {
                let pre = s@.subrange(start as int, i + 1);
                assert(digits_value(pre) > u16::MAX);
                if all_digits(digits) {
                    assert(digits.subrange(0, i + 1 - start) =~= pre);
                    lemma_digits_value_grows(digits, i + 1 - start);
                }
                assert(u16_digits(digits) is None);
            }
            return None;
        }
        value = value * 10 + d;
        i = i + 1;
    }
    proof {
        assert forall|k: int| 0 <= k < digits.len() implies is_digit(#[trigger] digits[k]) by {
            assert(digits[k] == s@[k + start]);
        }
    }
    Some(value as u16)
}

/// Digits never make a smaller number when more of them follow.
proof fn lemma_digits_value_grows(s: Seq<char>, k: int)
    requires
        0 <= k <= s.len(),
        all_digits(s),
    ensures
        digits_value(s) >= digits_value(s.subrange(0, k)),
    decreases s.len() - k,
{
    if k < s.len() {
        lemma_digits_value_grows(s, k + 1);
        assert(s.subrange(0, k + 1).drop_last() =~= s.subrange(0, k));
    } else {
        assert(s.subrange(0, k) =~= s);
    }
}

/// The textual form of a resource key: `port:<number>`.
pub open spec fn resource_key_text(key: ResourceKey) -> Seq<char> {
    match key {
        ResourceKey::Port(p) => "port:"@ + decimal(p as nat),
    }
}

pub fn resource_key_to_string(key: &ResourceKey) -> (r: String)
    ensures
        r@ == resource_key_text(*key),
{
    match key {
        ResourceKey::Port(p) => {
            let mut r = String::from_str("port:");
            push_decimal(&mut r, *p as u64);
            r
        },
    }
}

/// The position of the first `c` in `s`, if any.
pub open spec fn first_index(s: Seq<char>, c: char) -> Option<int> {
    if exists|i: int| 0 <= i < s.len() && s[i] == c {
        Some(choose|i: int| 0 <= i < s.len() && s[i] == c && forall|j: int| 0 <= j < i ==> s[j] != c)
    } else {
        None
    }
}

fn find_char(s: &str, c: char, from: usize) -> (r: Option<usize>)
    requires
        from <= s@.len(),
    ensures
        r matches Some(i) ==> from <= i < s@.len() && s@[i as int] == c && forall|j: int|
            from <= j < i ==> s@[j] != c,
        r is None ==> forall|j: int| from <= j < s@.len() ==> s@[j] != c,
{
    let n = s.unicode_len();
    let mut i = from;
    while i < n
        invariant
            n == s@.len(),
            from <= i <= n,
            forall|j: int| from <= j < i ==> s@[j] != c,
        decreases n - i,
    {
        if s.get_char(i) == c {
            return Some(i);
        }
        i = i + 1;
    }
    None
}

/// Reads `kind:value`; the one kind is `port`, whose value is a `u16`.
pub fn parse_resource_key(raw: &str) -> (r: Result<ResourceKey, InputError>)
    ensures
        r matches Ok(key) ==> exists|i: int|
            0 <= i < raw@.len() && raw@[i] == ':' && (forall|j: int| 0 <= j < i ==> raw@[j] != ':')
                && raw@.subrange(0, i) == "port"@ && u16_text(raw@.subrange(i + 1, raw@.len() as int))
                == Some(port_of_key(key)),
        (forall|j: int| 0 <= j < raw@.len() ==> raw@[j] != ':') ==> r is Err,
{
    let colon = match find_char(raw, ':', 0) {
        Some(i) => i,
        None => {
            return Err(InputError { message: String::from_str("resource must be in kind:value format") });
        },
    };
    let n = raw.unicode_len();
    let kind = raw.substring_char(0, colon);
    let value = raw.substring_char(colon + 1, n);
    if !str_equal(kind, "port") {
        return Err(unknown("unsupported resource kind: ", kind));
    }
    match parse_u16(value) {
        Some(p) => Ok(ResourceKey::Port(p)),
        None => Err(unknown("invalid port: ", value)),
    }
}

pub open spec fn port_of_key(key: ResourceKey) -> u16 {
    match key {
        ResourceKey::Port(p) => p,
    }
}

/// Reads fragments written `source|content|citation`; the citation keeps
/// any further `|`.
pub fn parse_fragments(raw: &[String]) -> (r: Result<Vec<ContextFragment>, InputError>)
    ensures
        r matches Ok(fs) ==> fs@.len() == raw@.len() && forall|k: int|
            0 <= k < raw@.len() ==> (#[trigger] raw@[k])@ == fs@[k].source_id@ + "|"@ + fs@[k].content@
                + "|"@ + fs@[k].citation@,
{
    let mut out: Vec<ContextFragment> = Vec::new();
    let mut k: usize = 0;
    while k < raw.len()
        invariant
            0 <= k <= raw@.len(),
            out@.len() == k,
            forall|q: int|
                0 <= q < k ==> (#[trigger] raw@[q])@ == out@[q].source_id@ + "|"@ + out@[q].content@
                    + "|"@ + out@[q].citation@,
        decreases raw@.len() - k,
    {
        let entry = raw[k].as_str();
        let n = entry.unicode_len();
        let first = match find_char(entry, '|', 0) {
            Some(i) => i,
            None => {
                return Err(unknown("invalid fragment: ", entry));
            },
        };
        let second = match find_char(entry, '|', first + 1) {
            Some(i) => i,
            None => {
                return Err(unknown("invalid fragment: ", entry));
            },
        };
        let fragment = ContextFragment::new(
            entry.substring_char(0, first),
            entry.substring_char(first + 1, second),
            entry.substring_char(second + 1, n),
        );
        proof {
            reveal_strlit("|");
            assert(entry@ =~= fragment.source_id@ + "|"@ + fragment.content@ + "|"@ + fragment.citation@);
        }
        out.push(fragment);
        k = k + 1;
    }
    Ok(out)
}

} // verus!
