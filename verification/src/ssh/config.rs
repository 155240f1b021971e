//! The `~/.ssh/config` parser: concrete `Host` blocks, with `User` and
//! `Port` defaults from wildcard blocks.

use vstd::prelude::*;
use crate::text::{
    chars_of, string_of, trim, trim_vec, sub_vec, split_by, views, Splitter, lines, is_ws,
    is_whitespace, equals_ignore_ascii_case, eq_ignore_ascii_case, find_char, parse_i32,
    signed_decimal, ascii_lower,
};

verus! {

/// One concrete host of the config.
#[derive(Debug, Clone)]
pub struct SshConfigHost {
    pub host: String,
    pub hostname: Option<String>,
    pub port: Option<i32>,
    pub user: Option<String>,
}

/// An `SshConfigHost` as character sequences.
pub struct HostView {
    pub host: Seq<char>,
    pub hostname: Option<Seq<char>>,
    pub port: Option<i32>,
    pub user: Option<Seq<char>>,
}

/// The characters of an optional string.
pub open spec fn opt_view(o: Option<String>) -> Option<Seq<char>> {
    match o {
        Some(s) => Some(s@),
        None => None,
    }
}

impl View for SshConfigHost {
    type V = HostView;

    open spec fn view(&self) -> HostView {
        HostView {
            host: self.host@,
            hostname: opt_view(self.hostname),
            port: self.port,
            user: opt_view(self.user),
        }
    }
}

/// The views of a sequence of hosts.
pub open spec fn host_views(v: Seq<SshConfigHost>) -> Seq<HostView> {
    v.map_values(|h: SshConfigHost| h@)
}

/// Index `i` is the first position of `s` whose character satisfies `p`.
pub open spec fn is_first(s: Seq<char>, p: spec_fn(char) -> bool, i: int) -> bool {
    0 <= i < s.len() && p(s[i]) && forall|j: int| 0 <= j < i ==> !p(s[j])
}

/// Some character of `s` satisfies `p`.
pub open spec fn has_where(s: Seq<char>, p: spec_fn(char) -> bool) -> bool {
    exists|i: int| 0 <= i < s.len() && p(s[i])
}

/// The first position of `s` whose character satisfies `p`.
pub open spec fn first_where(s: Seq<char>, p: spec_fn(char) -> bool) -> int {
    choose|i: int| is_first(s, p, i)
}

/// The whitespace predicate.
pub open spec fn ws_pred() -> spec_fn(char) -> bool {
    |c: char| is_ws(c)
}

/// The predicate "is `c`".
pub open spec fn char_pred(c: char) -> spec_fn(char) -> bool {
    |x: char| x == c
}

proof fn lemma_first_unique(s: Seq<char>, p: spec_fn(char) -> bool, i: int)
    requires
        is_first(s, p, i),
    ensures
        first_where(s, p) == i,
        has_where(s, p),
{
    let k = first_where(s, p);
    assert(is_first(s, p, k));
    if k < i {
        assert(!p(s[k]));
    } else if k > i {
        assert(!p(s[i]));
    }
}

/// The first index of a character satisfying the whitespace predicate
/// (`ws`) or equal to `c`.
fn find_first(v: &Vec<char>, ws: bool, c: char) -> (r: Option<usize>)
    ensures
        match r {
            Some(i) => is_first(v@, if ws { ws_pred() } else { char_pred(c) }, i as int) && first_where(
                v@,
                if ws { ws_pred() } else { char_pred(c) },
            ) == i as int,
            None => !has_where(v@, if ws { ws_pred() } else { char_pred(c) }),
        },
{
    let ghost p = if ws { ws_pred() } else { char_pred(c) };
    let mut i: usize = 0;
    while i < v.len()
        invariant
            i <= v.len(),
            p == (if ws { ws_pred() } else { char_pred(c) }),
            forall|j: int| 0 <= j < i ==> !p(v@[j]),
        decreases v.len() - i,
    {
        let hit = if ws {
            is_whitespace(v[i])
        } else {
            v[i] == c
        };
        if hit {
            proof {
                lemma_first_unique(v@, p, i as int);
            }
            return Some(i);
        }
        i += 1;
    }
    None
}

/// `split_directive`: a line split into key and value, at the first `=`
/// when both sides are non-empty after trimming, else at the first
/// whitespace character (the value trimmed, and required non-empty).
pub open spec fn directive(line: Seq<char>) -> Option<(Seq<char>, Seq<char>)> {
    let t = trim(line);
    let eq_split = if has_where(t, char_pred('=')) {
        let e = first_where(t, char_pred('='));
        let k = trim(t.subrange(0, e));
        let v = trim(t.subrange(e + 1, t.len() as int));
        if k.len() > 0 && v.len() > 0 {
            Some((k, v))
        } else {
            None
        }
    } else {
        None
    };
    if eq_split is Some {
        eq_split
    } else if has_where(t, ws_pred()) {
        let w = first_where(t, ws_pred());
        let v = trim(t.subrange(w + 1, t.len() as int));
        if v.len() == 0 {
            None
        } else {
            Some((t.subrange(0, w), v))
        }
    } else {
        None
    }
}

/// Split a config line into its keyword and value.
fn split_directive(line: &Vec<char>) -> (r: Option<(Vec<char>, Vec<char>)>)
    ensures
        match r {
            Some(kv) => directive(line@) == Some((kv.0@, kv.1@)),
            None => directive(line@) is None,
        },
{
    let t = trim_vec(line);
    match find_first(&t, false, '=') {
        Some(e) => {
            let k = trim_vec(&sub_vec(&t, 0, e));
            let v = trim_vec(&sub_vec(&t, e + 1, t.len()));
            if k.len() > 0 && v.len() > 0 {
                return Some((k, v));
            }
        },
        None => {},
    }
    match find_first(&t, true, ' ') {
        Some(w) => {
            let v = trim_vec(&sub_vec(&t, w + 1, t.len()));
            if v.len() == 0 {
                None
            } else {
                Some((sub_vec(&t, 0, w), v))
            }
        },
        None => None,
    }
}

/// `value.parse::<i32>().ok()`.
pub open spec fn port_of(v: Seq<char>) -> Option<i32> {
    match signed_decimal(v) {
        Some(n) => if i32::MIN <= n <= i32::MAX {
            Some(n as i32)
        } else {
            None
        },
        None => None,
    }
}

/// The parser's state after some lines.
pub struct ParseState {
    pub results: Seq<HostView>,
    pub current: Option<HostView>,
    pub default_user: Option<Seq<char>>,
    pub default_port: Option<i32>,
    pub in_wildcard: bool,
}

/// A host with the wildcard defaults filling its unset user and port.
pub open spec fn with_defaults(e: HostView, du: Option<Seq<char>>, dp: Option<i32>) -> HostView {
    HostView {
        host: e.host,
        hostname: e.hostname,
        port: if e.port is Some { e.port } else { dp },
        user: if e.user is Some { e.user } else { du },
    }
}

/// The results with the current host, if any, completed and appended.
pub open spec fn flushed(st: ParseState) -> Seq<HostView> {
    match st.current {
        Some(e) => st.results.push(with_defaults(e, st.default_user, st.default_port)),
        None => st.results,
    }
}

/// One line of the config applied to the state.
pub open spec fn config_step(st: ParseState, line: Seq<char>) -> ParseState {
    let t = trim(line);
    if t.len() == 0 || t[0] == '#' {
        st
    } else {
        match directive(t) {
            None => st,
            Some(kv) => {
                let (k, v) = kv;
                if eq_ignore_ascii_case(k, "Host"@) {
                    let w = v.contains('*') || v.contains('?');
                    ParseState {
                        results: flushed(st),
                        current: if w {
                            None
                        } else {
                            Some(HostView { host: v, hostname: None, port: None, user: None })
                        },
                        in_wildcard: w,
                        ..st
                    }
                } else if eq_ignore_ascii_case(k, "Match"@) {
                    ParseState { results: flushed(st), current: None, in_wildcard: false, ..st }
                } else if st.in_wildcard {
                    if eq_ignore_ascii_case(k, "User"@) {
                        ParseState { default_user: Some(v), ..st }
                    } else if eq_ignore_ascii_case(k, "Port"@) {
                        ParseState { default_port: port_of(v), ..st }
                    } else {
                        st
                    }
                } else {
                    match st.current {
                        Some(e) => ParseState {
                            current: Some(
                                if eq_ignore_ascii_case(k, "Hostname"@) {
                                    HostView { hostname: Some(v), ..e }
                                } else if eq_ignore_ascii_case(k, "Port"@) {
                                    HostView { port: port_of(v), ..e }
                                } else if eq_ignore_ascii_case(k, "User"@) {
                                    HostView { user: Some(v), ..e }
                                } else {
                                    e
                                },
                            ),
                            ..st
                        },
                        None => st,
                    }
                }
            },
        }
    }
}

/// The state after every line of `ls`, from the empty state.
pub open spec fn config_fold(ls: Seq<Seq<char>>) -> ParseState
    decreases ls.len(),
{
    if ls.len() == 0 {
        ParseState {
            results: seq![],
            current: None,
            default_user: None,
            default_port: None,
            in_wildcard: false,
        }
    } else {
        config_step(config_fold(ls.drop_last()), ls.last())
    }
}

/// The hosts a config text declares.
pub open spec fn ssh_config_hosts(content: Seq<char>) -> Seq<HostView> {
    flushed(config_fold(lines(content)))
}

/// Fill the entry's unset user and port from the wildcard defaults.
fn apply_defaults(entry: &mut SshConfigHost, default_user: &Option<String>, default_port: &Option<i32>)
    ensures
        final(entry)@ == with_defaults(old(entry)@, opt_view(*default_user), *default_port),
{
    if entry.user.is_none() {
        entry.user = match default_user {
            Some(u) => Some(u.clone()),
            None => None,
        };
    }
    if entry.port.is_none() {
        entry.port = *default_port;
    }
}

/// Whether `v` equals the ASCII keyword `word`, ignoring case.
fn keyword(v: &Vec<char>, word: &str) -> (r: bool)
    ensures
        r == eq_ignore_ascii_case(v@, word@),
{
    equals_ignore_ascii_case(v, &chars_of(word))
}

/// Parse the text of an ssh config file. `Host` blocks whose pattern has
/// `*` or `?` are not hosts: their `User` and `Port` become defaults for
/// hosts completed afterwards. `Match` blocks are skipped.
pub fn parse_ssh_config_str(content: &str) -> (r: Vec<SshConfigHost>)
    ensures
        host_views(r@) == ssh_config_hosts(content@),
{
    let all = split_by(&chars_of(content), Splitter::Lines);
    let ghost ls = views(all@);
    let mut results: Vec<SshConfigHost> = Vec::new();
    let mut current: Option<SshConfigHost> = None;
    let mut default_user: Option<String> = None;
    let mut default_port: Option<i32> = None;
    let mut in_wildcard = false;
    let mut i: usize = 0;
    while i < all.len()
        invariant
            i <= all@.len(),
            ls == views(all@),
            ls == lines(content@),
            ({
                let st = config_fold(ls.subrange(0, i as int));
                &&& host_views(results@) == st.results
                &&& (match current {
                    Some(e) => st.current == Some(e@),
                    None => st.current is None,
                })
                &&& opt_view(default_user) == st.default_user
                &&& default_port == st.default_port
                &&& in_wildcard == st.in_wildcard
            }),
        decreases all@.len() - i,
    {
        let ghost st0 = config_fold(ls.subrange(0, i as int));
        assert(ls.subrange(0, i + 1).drop_last() =~= ls.subrange(0, i as int));
        assert(ls.subrange(0, i + 1).last() == all@[i as int]@);
        let line = trim_vec(&all[i]);
        if line.len() == 0 || line[0] == '#' {
            i += 1;
            continue;
        }
        let (key, value) = match split_directive(&line) {
            Some(kv) => kv,
            None => {
                assert(directive(trim(all@[i as int]@)) is None);
                i += 1;
                continue;
            },
        };
        let ghost old_results = results@;
        if keyword(&key, "Host") {
            match current {
                Some(mut entry) => {
                    apply_defaults(&mut entry, &default_user, &default_port);
                    results.push(entry);
                    assert(host_views(results@) =~= host_views(old_results).push(entry@));
                },
                None => {},
            }
            in_wildcard = find_char(&value, '*').is_some() || find_char(&value, '?').is_some();
            if in_wildcard {
                current = None;
            } else {
                current = Some(SshConfigHost { host: string_of(value.as_slice()), hostname: None, port: None, user: None });
            }
        } else if keyword(&key, "Match") {
            match current {
                Some(mut entry) => {
                    apply_defaults(&mut entry, &default_user, &default_port);
                    results.push(entry);
                    assert(host_views(results@) =~= host_views(old_results).push(entry@));
                },
                None => {},
            }
            in_wildcard = false;
            current = None;
        } else if in_wildcard {
            if keyword(&key, "User") {
                default_user = Some(string_of(value.as_slice()));
            } else if keyword(&key, "Port") {
                default_port = parse_i32(&value);
            }
        } else {
            match current {
                Some(mut entry) => {
                    if keyword(&key, "Hostname") {
                        entry.hostname = Some(string_of(value.as_slice()));
                    } else if keyword(&key, "Port") {
                        entry.port = parse_i32(&value);
                    } else if keyword(&key, "User") {
                        entry.user = Some(string_of(value.as_slice()));
                    }
                    current = Some(entry);
                },
                None => {},
            }
        }
        i += 1;
    }
    assert(ls.subrange(0, all@.len() as int) =~= ls);
    match current {
        Some(mut entry) => {
            let ghost old_results = results@;
            apply_defaults(&mut entry, &default_user, &default_port);
            results.push(entry);
            assert(host_views(results@) =~= host_views(old_results).push(entry@));
        },
        None => {},
    }
    results
}

/// A name with no `*` or `?`: a concrete host rather than a pattern.
pub open spec fn concrete_name(v: Seq<char>) -> bool {
    !v.contains('*') && !v.contains('?')
}

/// Every host the parser holds, done or in progress, has a concrete name.
spec fn concrete_state(st: ParseState) -> bool {
    &&& forall|i: int| 0 <= i < st.results.len() ==> concrete_name(#[trigger] st.results[i].host)
    &&& (st.current matches Some(e) ==> concrete_name(e.host))
}

proof fn lemma_flushed_concrete(st: ParseState)
    requires
        concrete_state(st),
    ensures
        forall|i: int| 0 <= i < flushed(st).len() ==> concrete_name(#[trigger] flushed(st)[i].host),
{
    assert forall|i: int| 0 <= i < flushed(st).len() implies concrete_name(#[trigger] flushed(st)[i].host) by {
        if i < st.results.len() {
            assert(flushed(st)[i] == st.results[i]);
        }
    }
}

proof fn lemma_fold_concrete(ls: Seq<Seq<char>>)
    ensures
        concrete_state(config_fold(ls)),
    decreases ls.len(),
{
    if ls.len() > 0 {
        let st = config_fold(ls.drop_last());
        lemma_fold_concrete(ls.drop_last());
        lemma_flushed_concrete(st);
    }
}

/// Only concrete names are hosts: no host of a config has `*` or `?` in its
/// name, so a `Host` line with a pattern never yields a host of its own.
pub proof fn law_config_hosts_are_concrete(content: Seq<char>)
    ensures
        forall|i: int|
            0 <= i < ssh_config_hosts(content).len() ==> concrete_name(#[trigger] ssh_config_hosts(content)[i].host),
{
    lemma_fold_concrete(lines(content));
    lemma_flushed_concrete(config_fold(lines(content)));
}

/// `line` is a directive (not blank, not a comment) with keyword `key` and
/// value `value`.
pub open spec fn directive_line(line: Seq<char>, key: Seq<char>, value: Seq<char>) -> bool {
    let t = trim(line);
    t.len() > 0 && t[0] != '#' && directive(t) == Some((key, value))
}

/// A pattern block's `User` is the default of the hosts declared after it:
/// a config whose last lines are `Host PATTERN` (with `*` or `?`),
/// `User U` and `Host NAME` ends with the host `NAME`, logging in as `U`,
/// and the pattern itself is no host.
pub proof fn law_pattern_user_is_a_default(
    content: Seq<char>,
    ls: Seq<Seq<char>>,
    l1: Seq<char>,
    pattern: Seq<char>,
    l2: Seq<char>,
    user: Seq<char>,
    l3: Seq<char>,
    name: Seq<char>,
)
    requires
        lines(content) == ls + seq![l1, l2, l3],
        directive_line(l1, "Host"@, pattern),
        directive_line(l2, "User"@, user),
        directive_line(l3, "Host"@, name),
        !concrete_name(pattern),
        concrete_name(name),
    ensures
        ssh_config_hosts(content).len() > 0,
        ssh_config_hosts(content).last().host == name,
        ssh_config_hosts(content).last().user == Some(user),
        ssh_config_hosts(content).last().hostname is None,
        forall|i: int| 0 <= i < ssh_config_hosts(content).len() ==> (#[trigger] ssh_config_hosts(content)[i]).host != pattern,
{
    reveal_strlit("Host");
    reveal_strlit("User");
    reveal_strlit("Match");
    reveal_strlit("Port");
    reveal_strlit("Hostname");
    let all = ls + seq![l1, l2, l3];
    assert(all.drop_last() =~= ls + seq![l1, l2]);
    assert((ls + seq![l1, l2]).drop_last() =~= ls + seq![l1]);
    assert((ls + seq![l1]).drop_last() =~= ls);
    let s0 = config_fold(ls);
    let s1 = config_fold(ls + seq![l1]);
    let s2 = config_fold(ls + seq![l1, l2]);
    let s3 = config_fold(all);
    assert(eq_ignore_ascii_case("Host"@, "Host"@));
    assert(!eq_ignore_ascii_case("User"@, "Host"@)) by {
        assert(ascii_lower("User"@[1]) != ascii_lower("Host"@[1]));
    }
    assert(!eq_ignore_ascii_case("User"@, "Match"@));
    assert(eq_ignore_ascii_case("User"@, "User"@));
    assert(s1 == config_step(s0, l1));
    assert(pattern.contains('*') || pattern.contains('?'));
    assert(s1.in_wildcard && s1.current is None);
    assert(s2 == config_step(s1, l2));
    assert(s2.default_user == Some(user) && s2.current is None);
    assert(s3 == config_step(s2, l3));
    assert(s3.current == Some(HostView { host: name, hostname: None, port: None, user: None }));
    assert(s3.default_user == Some(user));
    law_config_hosts_are_concrete(content);
}

/// A pattern block's `Port` is the default of the hosts declared after it:
/// a config whose last lines are `Host PATTERN` (with `*` or `?`),
/// `Port P` and `Host NAME` ends with the host `NAME` on port `P`.
pub proof fn law_pattern_port_is_a_default(
    content: Seq<char>,
    ls: Seq<Seq<char>>,
    l1: Seq<char>,
    pattern: Seq<char>,
    l2: Seq<char>,
    port: Seq<char>,
    l3: Seq<char>,
    name: Seq<char>,
)
    requires
        lines(content) == ls + seq![l1, l2, l3],
        directive_line(l1, "Host"@, pattern),
        directive_line(l2, "Port"@, port),
        directive_line(l3, "Host"@, name),
        !concrete_name(pattern),
        concrete_name(name),
    ensures
        ssh_config_hosts(content).len() > 0,
        ssh_config_hosts(content).last().host == name,
        ssh_config_hosts(content).last().port == port_of(port),
{
    reveal_strlit("Host");
    reveal_strlit("User");
    reveal_strlit("Match");
    reveal_strlit("Port");
    let all = ls + seq![l1, l2, l3];
    assert(all.drop_last() =~= ls + seq![l1, l2]);
    assert((ls + seq![l1, l2]).drop_last() =~= ls + seq![l1]);
    assert((ls + seq![l1]).drop_last() =~= ls);
    let s0 = config_fold(ls);
    let s1 = config_fold(ls + seq![l1]);
    let s2 = config_fold(ls + seq![l1, l2]);
    let s3 = config_fold(all);
    assert(eq_ignore_ascii_case("Host"@, "Host"@));
    assert(!eq_ignore_ascii_case("Port"@, "Host"@)) by {
        assert(ascii_lower("Port"@[2]) != ascii_lower("Host"@[2]));
    }
    assert(!eq_ignore_ascii_case("Port"@, "Match"@)) by {
        assert(ascii_lower("Port"@[1]) != ascii_lower("Match"@[1]));
    }
    assert(!eq_ignore_ascii_case("Port"@, "User"@)) by {
        assert(ascii_lower("Port"@[1]) != ascii_lower("User"@[1]));
    }
    assert(eq_ignore_ascii_case("Port"@, "Port"@));
    assert(s1 == config_step(s0, l1));
    assert(pattern.contains('*') || pattern.contains('?'));
    assert(s1.in_wildcard && s1.current is None);
    assert(s2 == config_step(s1, l2));
    assert(s2.default_port == port_of(port) && s2.current is None);
    assert(s3 == config_step(s2, l3));
    assert(s3.current == Some(HostView { host: name, hostname: None, port: None, user: None }));
    assert(s3.default_port == port_of(port));
}

} // verus!
