//! Checking the host a user types into the wizard.
use vstd::prelude::*;

use crate::text::{
    char_vecs, chars_of, control_char, is_control, is_whitespace, opt_text, split_chars, split_on, string_from_chars,
    white_space,
};

verus! {

/// An ASCII letter or digit.
pub open spec fn ascii_alnum(c: char) -> bool {
    ('0' <= c && c <= '9') || ('a' <= c && c <= 'z') || ('A' <= c && c <= 'Z')
}

/// A DNS label: 1 to 63 ASCII letters, digits and hyphens, not starting or
/// ending with a hyphen.
pub open spec fn label_ok(l: Seq<char>) -> bool {
    &&& 0 < l.len() <= 63
    &&& l[0] != '-'
    &&& l.last() != '-'
    &&& forall|j: int| 0 <= j < l.len() ==> ascii_alnum(#[trigger] l[j]) || l[j] == '-'
}

/// `s` without one trailing dot, if it has one.
pub open spec fn without_final_dot(s: Seq<char>) -> Seq<char> {
    if s.len() > 0 && s.last() == '.' {
        s.drop_last()
    } else {
        s
    }
}

/// A host name: 1 to 253 characters, whose dot-separated parts (after
/// dropping one trailing dot) are all DNS labels.
pub open spec fn hostname_ok(s: Seq<char>) -> bool {
    &&& 0 < s.len() <= 253
    &&& forall|k: int|
        0 <= k < split_on(without_final_dot(s), '.').len() ==> label_ok(
            #[trigger] split_on(without_final_dot(s), '.')[k],
        )
}

/// The part of a host that is tried as an IP address: the text between
/// square brackets when it is bracketed, else the whole host.
pub open spec fn ip_candidate_of(s: Seq<char>) -> Seq<char> {
    if s.len() >= 2 && s[0] == '[' && s.last() == ']' {
        s.subrange(1, s.len() - 1)
    } else {
        s
    }
}

/// Why a (trimmed, non-empty) host is refused, if it is; `candidate_is_ip`
/// says whether `ip_candidate_of(s)` parses as an IP address.
pub open spec fn host_problem(s: Seq<char>, candidate_is_ip: bool) -> Option<Seq<char>> {
    if exists|j: int| 0 <= j < s.len() && #[trigger] s[j] == '@' {
        Some("don't include user@ — set user in the next step"@)
    } else if exists|j: int| 0 <= j < s.len() && (white_space(#[trigger] s[j]) || control_char(s[j])) {
        Some("host cannot contain whitespace"@)
    } else if candidate_is_ip || hostname_ok(s) {
        None
    } else {
        Some("host must be a hostname or IP address"@)
    }
}

/// Whether `label` is a DNS label.
pub fn is_valid_label(label: &Vec<char>) -> (r: bool)
    ensures
        r == label_ok(label@),
{
    let len = label.len();
    if len == 0 || len > 63 {
        return false;
    }
    if label[0] == '-' || label[len - 1] == '-' {
        return false;
    }
    let mut i: usize = 0;
    while i < len
        invariant
            i <= len,
            len == label@.len(),
            forall|j: int| 0 <= j < i ==> ascii_alnum(#[trigger] label@[j]) || label@[j] == '-',
        decreases len - i,
    {
        let c = label[i];
        if !(('0' <= c && c <= '9') || ('a' <= c && c <= 'z') || ('A' <= c && c <= 'Z') || c == '-') {
            assert(!(ascii_alnum(label@[i as int]) || label@[i as int] == '-'));
            return false;
        }
        i = i + 1;
    }
    true
}

/// Whether `s` is a host name.
pub fn is_valid_hostname(s: &str) -> (r: bool)
    ensures
        r == hostname_ok(s@),
{
    let cs = chars_of(s);
    let n = cs.len();
    if n == 0 || n > 253 {
        return false;
    }
    let mut t: Vec<char> = Vec::new();
    let m = if cs[n - 1] == '.' {
        n - 1
    } else {
        n
    };
    let mut i: usize = 0;
    while i < m
        invariant
            i <= m <= n,
            n == cs@.len(),
            t@ == cs@.take(i as int),
        decreases m - i,
    {
        t.push(cs[i]);
        assert(t@ =~= cs@.take(i + 1));
        i = i + 1;
    }
    assert(t@ =~= without_final_dot(s@));
    let labels = split_chars(&t, '.');
    let k = labels.len();
    let mut j: usize = 0;
    while j < k
        invariant
            j <= k,
            k == labels@.len(),
            char_vecs(labels@) == split_on(without_final_dot(s@), '.'),
            forall|q: int| 0 <= q < j ==> label_ok(#[trigger] split_on(without_final_dot(s@), '.')[q]),
        decreases k - j,
    {
        assert(char_vecs(labels@)[j as int] == labels@[j as int]@);
        if !is_valid_label(&labels[j]) {
            return false;
        }
        j = j + 1;
    }
    true
}

/// The part of a host that is tried as an IP address.
pub fn ip_candidate(s: &str) -> (res: String)
    ensures
        res@ == ip_candidate_of(s@),
{
    let cs = chars_of(s);
    let n = cs.len();
    if n >= 2 && cs[0] == '[' && cs[n - 1] == ']' {
        let mut out: Vec<char> = Vec::new();
        let mut i: usize = 1;
        while i < n - 1
            invariant
                1 <= i <= n - 1,
                n == cs@.len(),
                out@ == cs@.subrange(1, i as int),
            decreases n - 1 - i,
        {
            out.push(cs[i]);
            assert(out@ =~= cs@.subrange(1, i + 1));
            i = i + 1;
        }
        return string_from_chars(&out);
    }
    s.to_owned()
}

/// Why a (trimmed, non-empty) host is refused, if it is: it holds `@`, or
/// white space or a control character, or it is neither an IP address
/// (`candidate_is_ip`, whether `ip_candidate(s)` parses as one) nor a host
/// name.
pub fn validate_host(s: &str, candidate_is_ip: bool) -> (res: Option<String>)
    ensures
        opt_text(res) == host_problem(s@, candidate_is_ip),
{
    let cs = chars_of(s);
    let n = cs.len();
    let mut i: usize = 0;
    while i < n
        invariant
            i <= n,
            n == cs@.len(),
            cs@ == s@,
            forall|j: int| 0 <= j < i ==> cs@[j] != '@',
        decreases n - i,
    {
        if cs[i] == '@' {
            assert(s@[i as int] == '@');
            return Some(String::from_str("don't include user@ — set user in the next step"));
        }
        i = i + 1;
    }
    let mut i: usize = 0;
    while i < n
        invariant
            i <= n,
            n == cs@.len(),
            cs@ == s@,
            forall|j: int| 0 <= j < n ==> cs@[j] != '@',
            forall|j: int| 0 <= j < i ==> !(white_space(#[trigger] cs@[j]) || control_char(cs@[j])),
        decreases n - i,
    {
        if is_whitespace(cs[i]) || is_control(cs[i]) {
            assert(white_space(s@[i as int]) || control_char(s@[i as int]));
            return Some(String::from_str("host cannot contain whitespace"));
        }
        i = i + 1;
    }
    if candidate_is_ip {
        return None;
    }
    if is_valid_hostname(s) {
        return None;
    }
    Some(String::from_str("host must be a hostname or IP address"))
}

} // verus!
