//! Service management: the option and status types, the platform stubs for
//! the service commands (native service control is Windows-only and runs
//! through external utilities in the embedding program), and the pure text
//! logic those commands share: parsing the state out of `sc query` output,
//! recognizing well-known error texts, and decorating errors with hints.

use vstd::prelude::*;
use vstd::string::StringSliceAdditionalSpecFns;
use crate::text::{
    bs, concat_bytes, contains_sub, copy_bytes, has_sub, is_space, lower, spec_trim, to_lower,
    trim,
};

verus! {

/// The account a service runs under.
#[derive(Debug, Clone)]
pub enum ServiceAccount {
    Inherit,
    LocalSystem,
    CurrentUser { username: Vec<u8>, password: Vec<u8> },
}

/// Everything an installation needs.
#[derive(Debug, Clone)]
pub struct ServiceInstallOptions {
    pub name: Vec<u8>,
    pub binary_path: Vec<u8>,
    pub arguments: Vec<u8>,
    pub working_directory: Vec<u8>,
    pub log_directory: Vec<u8>,
    pub account: ServiceAccount,
    pub auto_install_nssm: bool,
    pub autostart: bool,
}

/// Whether a service exists and, if so, its reported state.
#[derive(Debug, Clone, PartialEq, Eq)]
pub struct ServiceStatus {
    pub exists: bool,
    pub state: Option<Vec<u8>>,
}

/// A service-management error, carrying its message text.
#[derive(Debug, Clone)]
pub struct ServiceError {
    pub message: Vec<u8>,
}

/// The message every service command returns on this platform.
pub open spec fn spec_unsupported_message() -> Seq<u8> {
    ("Service management is currently supported on Windows only.").spec_bytes()
}

/// On this platform service installation is not available.
pub fn install_service(_options: &ServiceInstallOptions) -> (r: Result<(), ServiceError>)
    ensures
        r matches Err(e) && e.message@ == spec_unsupported_message(),
{
    Err(ServiceError { message: bs("Service management is currently supported on Windows only.") })
}

/// On this platform service removal is not available.
pub fn remove_service(_name: &Vec<u8>) -> (r: Result<(), ServiceError>)
    ensures
        r matches Err(e) && e.message@ == spec_unsupported_message(),
{
    Err(ServiceError { message: bs("Service management is currently supported on Windows only.") })
}

/// On this platform starting a service is not available.
pub fn start_service(_name: &Vec<u8>) -> (r: Result<(), ServiceError>)
    ensures
        r matches Err(e) && e.message@ == spec_unsupported_message(),
{
    Err(ServiceError { message: bs("Service management is currently supported on Windows only.") })
}

/// On this platform stopping a service is not available.
pub fn stop_service(_name: &Vec<u8>) -> (r: Result<(), ServiceError>)
    ensures
        r matches Err(e) && e.message@ == spec_unsupported_message(),
{
    Err(ServiceError { message: bs("Service management is currently supported on Windows only.") })
}

/// On this platform restarting a service is not available.
pub fn restart_service(_name: &Vec<u8>) -> (r: Result<(), ServiceError>)
    ensures
        r matches Err(e) && e.message@ == spec_unsupported_message(),
{
    Err(ServiceError { message: bs("Service management is currently supported on Windows only.") })
}

/// On this platform querying a service is not available.
pub fn status_service(_name: &Vec<u8>) -> (r: Result<ServiceStatus, ServiceError>)
    ensures
        r matches Err(e) && e.message@ == spec_unsupported_message(),
{
    Err(ServiceError { message: bs("Service management is currently supported on Windows only.") })
}

/// Command output reduced to text: trimmed of surrounding whitespace. The
/// bytes are taken as UTF-8 text as they came from the command.
pub fn output_text(bytes: &Vec<u8>) -> (r: Vec<u8>)
    ensures
        r@ == spec_trim(bytes@),
{
    trim(bytes)
}

/// The error text of a service pending deletion.
pub open spec fn spec_is_marked_for_delete(m: Seq<u8>) -> bool {
    has_sub(lower(m), ("marked for deletion").spec_bytes()) || has_sub(
        m,
        ("已标记为删除").spec_bytes(),
    )
}

/// Whether an error message reports a service pending deletion, in either
/// of the texts the service-control utilities emit.
pub fn is_marked_for_delete_error(message: &Vec<u8>) -> (r: bool)
    ensures
        r == spec_is_marked_for_delete(message@),
{
    let m_lower = to_lower(message);
    contains_sub(&m_lower, &bs("marked for deletion")) || contains_sub(
        message,
        &bs("已标记为删除"),
    )
}

/// The error text of denied access.
pub open spec fn spec_is_access_denied(m: Seq<u8>) -> bool {
    has_sub(lower(m), ("access is denied").spec_bytes()) || has_sub(
        m,
        ("拒绝访问").spec_bytes(),
    )
}

/// Decorate a service error message with an operator hint: deletion-pending
/// and access-denied errors each get their remedy appended; anything else
/// passes through unchanged.
pub fn with_service_hints(message: &Vec<u8>, service_name: &Vec<u8>) -> (r: Vec<u8>)
    ensures
        spec_is_marked_for_delete(message@) ==> r@ == message@ + (
        "\nhint: service '").spec_bytes() + service_name@ + (
        "' is pending deletion.\nclose Services.msc / Event Viewer windows, wait a few seconds, then retry.\nif it still persists, reboot Windows or use a different name via --name.").spec_bytes(),
        !spec_is_marked_for_delete(message@) && spec_is_access_denied(message@) ==> r@
            == message@ + (
        "\nhint: run the terminal as Administrator and retry.\nsuggested: nanobot service install --name ").spec_bytes()
            + service_name@,
        !spec_is_marked_for_delete(message@) && !spec_is_access_denied(message@) ==> r@
            == message@,
{
    if is_marked_for_delete_error(message) {
        let head = concat_bytes(message, &bs("\nhint: service '"));
        let mid = concat_bytes(&head, service_name);
        return concat_bytes(
            &mid,
            &bs(
                "' is pending deletion.\nclose Services.msc / Event Viewer windows, wait a few seconds, then retry.\nif it still persists, reboot Windows or use a different name via --name.",
            ),
        );
    }
    let m_lower = to_lower(message);
    let denied = contains_sub(&m_lower, &bs("access is denied")) || contains_sub(
        message,
        &bs("拒绝访问"),
    );
    if denied {
        let head = concat_bytes(
            message,
            &bs(
                "\nhint: run the terminal as Administrator and retry.\nsuggested: nanobot service install --name ",
            ),
        );
        return concat_bytes(&head, service_name);
    }
    copy_bytes(message)
}

/// The first index holding `b`, if any.
pub open spec fn spec_find_byte(t: Seq<u8>, b: u8) -> Option<int>
    decreases t.len(),
{
    if t.len() == 0 {
        None
    } else if t[0] == b {
        Some(0)
    } else {
        match spec_find_byte(t.skip(1), b) {
            None => None,
            Some(k) => Some(k + 1),
        }
    }
}

/// A found first occurrence lies within the text.
pub proof fn lemma_find_byte_bounds(t: Seq<u8>, b: u8)
    ensures
        spec_find_byte(t, b) matches Some(i) ==> 0 <= i < t.len(),
    decreases t.len(),
{
    if t.len() > 0 && t[0] != b {
        lemma_find_byte_bounds(t.skip(1), b);
    }
}

/// A scan that saw no `b` before `j` pins the first occurrence down.
pub proof fn lemma_find_byte_exact(t: Seq<u8>, b: u8, j: int)
    requires
        0 <= j <= t.len(),
        forall|k: int| 0 <= k < j ==> t[k] != b,
    ensures
        (j < t.len() && t[j] == b) ==> spec_find_byte(t, b) == Some(j),
        j == t.len() ==> spec_find_byte(t, b) is None,
    decreases t.len(),
{
    if t.len() > 0 && t[0] != b {
        if j > 0 {
            assert(forall|k: int| 0 <= k < j - 1 ==> t.skip(1)[k] == t[k + 1]);
            lemma_find_byte_exact(t.skip(1), b, j - 1);
        }
    }
}

/// A line with its trailing carriage return removed.
pub open spec fn strip_cr(l: Seq<u8>) -> Seq<u8> {
    if l.len() > 0 && l.last() == 13u8 {
        l.drop_last()
    } else {
        l
    }
}

/// The lines of a text: split at every newline, each line without its
/// trailing carriage return, and nothing after a final newline.
pub open spec fn spec_lines(s: Seq<u8>) -> Seq<Seq<u8>>
    decreases s.len(),
    via spec_lines_decreases
{
    if s.len() == 0 {
        Seq::empty()
    } else {
        match spec_find_byte(s, 10u8) {
            None => seq![strip_cr(s)],
            Some(i) => seq![strip_cr(s.take(i))] + spec_lines(s.skip(i + 1)),
        }
    }
}

#[via_fn]
proof fn spec_lines_decreases(s: Seq<u8>) {
    if s.len() > 0 {
        lemma_find_byte_bounds(s, 10u8);
    }
}

/// The byte views of a list of byte strings.
pub open spec fn deep(s: Seq<Vec<u8>>) -> Seq<Seq<u8>> {
    Seq::new(s.len(), |i: int| s[i]@)
}

/// Split a text into lines.
pub fn split_lines(s: &Vec<u8>) -> (r: Vec<Vec<u8>>)
    ensures
        deep(r@) == spec_lines(s@),
{
    let mut out: Vec<Vec<u8>> = Vec::new();
    let mut pos: usize = 0;
    proof {
        assert(s@.skip(0) =~= s@);
        assert(deep(out@) + spec_lines(s@) =~= spec_lines(s@));
    }
    while pos < s.len()
        invariant
            pos <= s@.len(),
            spec_lines(s@) == deep(out@) + spec_lines(s@.skip(pos as int)),
        decreases s@.len() - pos,
    {
        let ghost tail = s@.skip(pos as int);
        let mut j: usize = pos;
        while j < s.len() && s[j] != 10
            invariant
                pos <= j <= s@.len(),
                forall|k: int| pos <= k < j ==> s@[k] != 10u8,
            decreases s@.len() - j,
        {
            j = j + 1;
        }
        proof {
            assert(forall|k: int| 0 <= k < j - pos ==> tail[k] == s@[k + pos]);
            lemma_find_byte_exact(tail, 10u8, j - pos);
        }
        let mut endb = j;
        if endb > pos && s[endb - 1] == 13 {
            endb = endb - 1;
        }
        let mut line: Vec<u8> = Vec::new();
        let mut k: usize = pos;
        while k < endb
            invariant
                pos <= k <= endb <= s@.len(),
                line@ == s@.subrange(pos as int, k as int),
            decreases endb - k,
        {
            line.push(s[k]);
            proof {
                assert(line@ =~= s@.subrange(pos as int, k + 1));
            }
            k = k + 1;
        }
        proof {
            let lraw = tail.take(j - pos);
            assert(lraw =~= s@.subrange(pos as int, j as int));
            assert(strip_cr(lraw) =~= s@.subrange(pos as int, endb as int));
            if j == s@.len() {
                assert(lraw =~= tail);
            }
        }
        let ghost out0 = out@;
        out.push(line);
        proof {
            assert(deep(out@) =~= deep(out0).push(line@));
        }
        if j < s.len() {
            proof {
                assert(tail.skip(j - pos + 1) =~= s@.skip(j + 1));
                assert(deep(out0) + (seq![strip_cr(tail.take(j - pos))] + spec_lines(
                    s@.skip(j + 1),
                )) =~= deep(out0).push(line@) + spec_lines(s@.skip(j + 1)));
            }
            pos = j + 1;
        } else {
            proof {
                assert(deep(out0) + seq![strip_cr(tail)] =~= deep(out0).push(line@));
                assert(s@.skip(s@.len() as int) =~= Seq::<u8>::empty());
                assert(deep(out0).push(line@) + spec_lines(Seq::<u8>::empty()) =~= deep(
                    out0,
                ).push(line@));
            }
            pos = j;
            proof {
                assert(spec_lines(s@) == deep(out@) + spec_lines(s@.skip(pos as int)));
            }
            return out;
        }
    }
    proof {
        assert(s@.skip(s@.len() as int) =~= Seq::<u8>::empty());
        assert(deep(out@) + spec_lines(Seq::<u8>::empty()) =~= deep(out@));
    }
    out
}

/// The whitespace-separated tokens of a text.
pub open spec fn spec_ws_tokens(s: Seq<u8>) -> Seq<Seq<u8>>
    decreases s.len(),
{
    if s.len() == 0 {
        Seq::empty()
    } else if is_space(s[0]) {
        spec_ws_tokens(s.skip(1))
    } else {
        let rest = spec_ws_tokens(s.skip(1));
        if s.len() >= 2 && !is_space(s[1]) {
            seq![seq![s[0]] + rest[0]] + rest.skip(1)
        } else {
            seq![seq![s[0]]] + rest
        }
    }
}

/// A run of non-space bytes up to a space (or the end) is one token.
proof fn lemma_tokens_word(s: Seq<u8>, j: int)
    requires
        1 <= j <= s.len(),
        forall|k: int| 0 <= k < j ==> !is_space(s[k]),
        j == s.len() || is_space(s[j]),
    ensures
        spec_ws_tokens(s) == seq![s.take(j)] + spec_ws_tokens(s.skip(j)),
    decreases j,
{
    let rest = spec_ws_tokens(s.skip(1));
    if j == 1 {
        if s.len() >= 2 && !is_space(s[1]) {
            assert(is_space(s[j]));
            assert(false);
        }
        assert(s.take(1) =~= seq![s[0]]);
        assert(s.skip(j) =~= s.skip(1));
    } else {
        assert(forall|k: int| 0 <= k < j - 1 ==> s.skip(1)[k] == s[k + 1]);
        assert(s.skip(1).len() == s.len() - 1);
        lemma_tokens_word(s.skip(1), j - 1);
        assert(s.len() >= 2 && !is_space(s[1]));
        assert(rest == seq![s.skip(1).take(j - 1)] + spec_ws_tokens(s.skip(1).skip(j - 1)));
        assert(rest[0] == s.skip(1).take(j - 1));
        assert(seq![s[0]] + s.skip(1).take(j - 1) =~= s.take(j));
        assert(rest.skip(1) =~= spec_ws_tokens(s.skip(1).skip(j - 1)));
        assert(s.skip(1).skip(j - 1) =~= s.skip(j));
        assert(seq![seq![s[0]] + rest[0]] + rest.skip(1) =~= seq![s.take(j)] + spec_ws_tokens(
            s.skip(j),
        ));
    }
}

/// Split a text into its whitespace-separated tokens.
pub fn ws_tokens(s: &Vec<u8>) -> (r: Vec<Vec<u8>>)
    ensures
        deep(r@) == spec_ws_tokens(s@),
{
    let mut out: Vec<Vec<u8>> = Vec::new();
    let mut pos: usize = 0;
    proof {
        assert(s@.skip(0) =~= s@);
        assert(deep(out@) + spec_ws_tokens(s@) =~= spec_ws_tokens(s@));
    }
    while pos < s.len()
        invariant
            pos <= s@.len(),
            spec_ws_tokens(s@) == deep(out@) + spec_ws_tokens(s@.skip(pos as int)),
        decreases s@.len() - pos,
    {
        if crate::text::is_space_byte(s[pos]) {
            proof {
                assert(s@.skip(pos as int).skip(1) =~= s@.skip(pos + 1));
            }
            pos = pos + 1;
        } else {
            let ghost tail = s@.skip(pos as int);
            let mut j: usize = pos;
            while j < s.len() && !crate::text::is_space_byte(s[j])
                invariant
                    pos <= j <= s@.len(),
                    forall|k: int| pos <= k < j ==> !is_space(s@[k]),
                decreases s@.len() - j,
            {
                j = j + 1;
            }
            proof {
                assert(forall|k: int| 0 <= k < j - pos ==> tail[k] == s@[k + pos]);
                if (j as int) < s@.len() {
                    assert(tail[j - pos] == s@[j as int]);
                }
                lemma_tokens_word(tail, j - pos);
            }
            let mut tok: Vec<u8> = Vec::new();
            let mut k: usize = pos;
            while k < j
                invariant
                    pos <= k <= j <= s@.len(),
                    tok@ == s@.subrange(pos as int, k as int),
                decreases j - k,
            {
                tok.push(s[k]);
                proof {
                    assert(tok@ =~= s@.subrange(pos as int, k + 1));
                }
                k = k + 1;
            }
            let ghost out0 = out@;
            out.push(tok);
            proof {
                assert(tok@ =~= tail.take(j - pos));
                assert(deep(out@) =~= deep(out0).push(tok@));
                assert(tail.skip(j - pos) =~= s@.skip(j as int));
                assert(deep(out0) + (seq![tail.take(j - pos)] + spec_ws_tokens(
                    s@.skip(j as int),
                )) =~= deep(out0).push(tok@) + spec_ws_tokens(s@.skip(j as int)));
            }
            pos = j;
        }
    }
    proof {
        assert(s@.skip(s@.len() as int) =~= Seq::<u8>::empty());
        assert(deep(out@) + spec_ws_tokens(Seq::<u8>::empty()) =~= deep(out@));
    }
    out
}

/// All bytes are ASCII digits.
pub open spec fn spec_all_digits(t: Seq<u8>) -> bool {
    forall|k: int| 0 <= k < t.len() ==> 48 <= #[trigger] t[k] <= 57
}

/// The state a `STATE` line reports: the text after the colon, tokenized;
/// a leading all-digit token (the numeric state code) is skipped in favor
/// of the symbolic name after it.
pub open spec fn spec_state_of_line(l: Seq<u8>) -> Option<Seq<u8>> {
    match spec_find_byte(l, 58u8) {
        None => None,
        Some(i) => {
            let toks = spec_ws_tokens(l.skip(i + 1));
            if toks.len() == 0 {
                None
            } else if spec_all_digits(toks[0]) {
                if toks.len() >= 2 {
                    Some(toks[1])
                } else {
                    None
                }
            } else {
                Some(toks[0])
            }
        },
    }
}

/// What `parse_state` returns: the state of the first line that mentions
/// `STATE`, and nothing when no line does.
pub open spec fn spec_parse_lines(ls: Seq<Seq<u8>>) -> Option<Seq<u8>>
    decreases ls.len(),
{
    if ls.len() == 0 {
        None
    } else if has_sub(ls[0], ("STATE").spec_bytes()) {
        spec_state_of_line(ls[0])
    } else {
        spec_parse_lines(ls.skip(1))
    }
}

/// The service state in `sc query` output.
pub open spec fn spec_parse_state(s: Seq<u8>) -> Option<Seq<u8>> {
    spec_parse_lines(spec_lines(s))
}

/// The state one line reports.
fn state_of_line(l: &Vec<u8>) -> (r: Option<Vec<u8>>)
    ensures
        r matches Some(v) ==> spec_state_of_line(l@) == Some(v@),
        r is None ==> spec_state_of_line(l@) is None,
{
    let mut i: usize = 0;
    while i < l.len() && l[i] != 58
        invariant
            i <= l@.len(),
            forall|k: int| 0 <= k < i ==> l@[k] != 58u8,
        decreases l@.len() - i,
    {
        i = i + 1;
    }
    proof {
        lemma_find_byte_exact(l@, 58u8, i as int);
    }
    if i == l.len() {
        return None;
    }
    let mut right: Vec<u8> = Vec::new();
    let mut k: usize = i + 1;
    while k < l.len()
        invariant
            i + 1 <= k <= l@.len(),
            right@ == l@.subrange(i + 1, k as int),
        decreases l@.len() - k,
    {
        right.push(l[k]);
        proof {
            assert(right@ =~= l@.subrange(i + 1, k + 1));
        }
        k = k + 1;
    }
    proof {
        assert(right@ =~= l@.skip(i + 1));
    }
    let toks = ws_tokens(&right);
    if toks.len() == 0 {
        return None;
    }
    proof {
        assert(deep(toks@)[0] == toks@[0]@);
    }
    let first = &toks[0];
    let mut all_digits = true;
    let mut d: usize = 0;
    while d < first.len()
        invariant
            d <= first@.len(),
            all_digits == (forall|k: int| 0 <= k < d ==> 48 <= #[trigger] first@[k] <= 57),
        decreases first@.len() - d,
    {
        let b = first[d];
        if b < 48 || b > 57 {
            all_digits = false;
        }
        d = d + 1;
    }
    if all_digits {
        if toks.len() >= 2 {
            proof {
                assert(deep(toks@)[1] == toks@[1]@);
            }
            Some(copy_bytes(&toks[1]))
        } else {
            None
        }
    } else {
        Some(copy_bytes(first))
    }
}

/// Parse the service state out of `sc query` output: the first line that
/// mentions `STATE`, its text after the colon, and there the symbolic name
/// (after the numeric code when one leads).
pub fn parse_state(sc_output: &Vec<u8>) -> (r: Option<Vec<u8>>)
    ensures
        r matches Some(v) ==> spec_parse_state(sc_output@) == Some(v@),
        r is None ==> spec_parse_state(sc_output@) is None,
{
    let lines = split_lines(sc_output);
    let needle = bs("STATE");
    let mut li: usize = 0;
    proof {
        assert(deep(lines@).skip(0) =~= deep(lines@));
    }
    while li < lines.len()
        invariant
            li <= lines@.len(),
            deep(lines@) == spec_lines(sc_output@),
            spec_parse_lines(deep(lines@)) == spec_parse_lines(deep(lines@).skip(li as int)),
            needle@ == ("STATE").spec_bytes(),
        decreases lines@.len() - li,
    {
        proof {
            assert(deep(lines@).skip(li as int)[0] == lines@[li as int]@);
            assert(deep(lines@).skip(li as int).skip(1) =~= deep(lines@).skip(li + 1));
        }
        if contains_sub(&lines[li], &needle) {
            return state_of_line(&lines[li]);
        }
        li = li + 1;
    }
    proof {
        assert(deep(lines@).skip(lines@.len() as int) =~= Seq::<Seq<u8>>::empty());
    }
    None
}

} // verus!
