//! Which agents to poll: host lists, and the peers of a tailnet.
use vstd::prelude::*;

use vstd::utf8::{decode_utf8, encode_utf8_decode_utf8, valid_utf8};

use crate::bytes::utf8_complaint;
use crate::bytes::utf8_text;
use crate::collect_cmd::join;
use crate::http::to_lower;
use crate::http::{lower, same_but_for_case};
use crate::serialize::decode_lossy;
use crate::serialize::lossy_text;
use crate::text::{
    chars_of, find_char, has_prefix, parse_uint, push_dec, split_char, split_lines, split_words, text_of,
    trim,
};
use crate::text::{
    back_over_white, begins, dec, dec_parses_back, find, is_digit, lemma_back_over_white, lemma_dec,
    lemma_find, lemma_find_is, lemma_skip_white, lemma_trimmed_is_kept, lemma_words_after_white,
    lemma_words_cons, lemma_words_single, lines, parsed_uint, skip_white, split,
    texts, trimmed, white, words,
};

verus! {

// ── Host lists ───────────────────────────────────────────────────────────────

/// A host without the scheme in front of it and the path behind it.
pub open spec fn bare_host(s: Seq<char>) -> Seq<char> {
    let t = if begins(s, "https://"@) {
        s.skip(8)
    } else if begins(s, "http://"@) {
        s.skip(7)
    } else {
        s
    };
    t.take(find(t, 0, '/'))
}

/// The target that an entry of a host list names: `host:port`.
pub open spec fn target_of(s: Seq<char>, default_port: nat) -> Seq<char> {
    let host = bare_host(s);
    if host.contains(':') {
        host
    } else {
        host + ":"@ + dec(default_port)
    }
}

/// The targets of the first `n` entries; empty entries name none.
pub open spec fn targets_in(entries: Seq<Seq<char>>, default_port: nat, n: int) -> Seq<Seq<char>>
    decreases n,
{
    if n <= 0 {
        Seq::empty()
    } else {
        let before = targets_in(entries, default_port, n - 1);
        let entry = trimmed(entries[n - 1]);
        if entry.len() == 0 {
            before
        } else {
            before.push(target_of(entry, default_port))
        }
    }
}

/// The targets of a comma-separated host list.
pub open spec fn hosts_of(list: Seq<char>, default_port: nat) -> Seq<Seq<char>> {
    let entries = split(list, ',');
    targets_in(entries, default_port, entries.len() as int)
}

fn target(s: &str, default_port: u16) -> (r: String)
    ensures
        r@ == target_of(s@, default_port as nat),
{
    proof {
        reveal_strlit("https://");
        reveal_strlit("http://");
    }
    let v = chars_of(s);
    let from: usize = if has_prefix(s, "https://") {
        8
    } else if has_prefix(s, "http://") {
        7
    } else {
        0
    };
    let ghost t = s@.skip(from as int);
    assert(s@.skip(0) == s@);
    let end: usize = find_char(&v, from, '/');
    proof {
        crate::text::lemma_find_skip(v@, from as int, '/');
        assert(t.take(end - from) == v@.subrange(from as int, end as int));
    }
    let mut host = text_of(&v, from, end);
    let hv = chars_of(&host);
    let colon: usize = find_char(&hv, 0, ':');
    proof {
        lemma_find(hv@, 0, ':');
        if colon < hv@.len() {
            assert(host@.contains(':'));
        } else {
            assert(!host@.contains(':'));
        }
    }
    if colon == hv.len() {
        host.append(":");
        push_dec(&mut host, default_port as u64);
    }
    host
}

/// The targets of a comma-separated host list. An entry may carry a scheme and a
/// path, which are dropped; an entry without a port gets the default one.
pub fn parse_hosts(list: &str, default_port: u16) -> (r: Vec<String>)
    ensures
        texts(r@) == hosts_of(list@, default_port as nat),
{
    let entries = split_char(list, ',');
    let ghost all = texts(entries@);
    let mut r: Vec<String> = Vec::new();
    let mut i: usize = 0;
    while i < entries.len()
        invariant
            i <= entries.len(),
            all == texts(entries@),
            texts(r@) == targets_in(all, default_port as nat, i as int),
        decreases entries.len() - i,
    {
        assert(all[i as int] == entries@[i as int]@);
        let entry = trim(&entries[i]);
        if !entry.as_str().is_empty() {
            let ghost before = texts(r@);
            let t = target(&entry, default_port);
            let ghost text = t@;
            r.push(t);
            assert(texts(r@) == before.push(text));
        }
        i += 1;
    }
    r
}

/// Whether a target can stand in a host list as it is: it names a port, and holds
/// neither a path nor a comma.
spec fn plain(t: Seq<char>) -> bool {
    t.contains(':') && !t.contains('/') && !t.contains(',')
}

proof fn lemma_split_pieces(s: Seq<char>, c: char)
    ensures
        split(s, c).len() > 0,
        forall|k: int| 0 <= k < split(s, c).len() ==> !(#[trigger] split(s, c)[k]).contains(c),
    decreases s.len(),
{
    lemma_find(s, 0, c);
    let j = find(s, 0, c);
    if j < s.len() {
        lemma_split_pieces(s.skip(j + 1), c);
        let rest = split(s.skip(j + 1), c);
        assert forall|k: int| 0 <= k < split(s, c).len() implies !(#[trigger] split(
            s,
            c,
        )[k]).contains(c) by {
            if k > 0 {
                assert(split(s, c)[k] == rest[k - 1]);
            }
        }
    }
}

/// A piece behind a separator is the last of the pieces.
proof fn lemma_split_push(a: Seq<char>, b: Seq<char>, c: char)
    requires
        !b.contains(c),
    ensures
        split(a + seq![c] + b, c) == split(a, c).push(b),
    decreases a.len(),
{
    let s = a + seq![c] + b;
    lemma_find(a, 0, c);
    let j = find(a, 0, c);
    assert(s[a.len() as int] == c);
    lemma_find_is(s, 0, c, j);
    assert(s.take(j) =~= a.take(j));
    if j < a.len() {
        assert(s.skip(j + 1) =~= a.skip(j + 1) + seq![c] + b);
        lemma_split_push(a.skip(j + 1), b, c);
        assert(split(s, c) =~= split(a, c).push(b));
    } else {
        assert(a.take(j) =~= a);
        assert(s.skip(j + 1) =~= b);
        lemma_no_piece(b, c);
        assert(split(a, c) =~= seq![a]);
        assert(split(s, c) =~= split(a, c).push(b));
    }
}

proof fn lemma_no_piece(s: Seq<char>, c: char)
    requires
        !s.contains(c),
    ensures
        split(s, c) == seq![s],
{
    lemma_find_is(s, 0, c, s.len() as int);
}

/// Texts that were joined are split again.
proof fn lemma_split_join(all: Seq<Seq<char>>, n: int)
    requires
        1 <= n <= all.len(),
        forall|k: int| 0 <= k < n ==> !(#[trigger] all[k]).contains(','),
    ensures
        split(join(all, ","@, n), ',') == all.take(n),
    decreases n,
{
    reveal_strlit(",");
    assert(","@ =~= seq![',']);
    if n == 1 {
        lemma_no_piece(all[0], ',');
        assert(all.take(1) =~= seq![all[0]]);
    } else {
        lemma_split_join(all, n - 1);
        lemma_split_push(join(all, ","@, n - 1), all[n - 1], ',');
        assert(all.take(n) =~= all.take(n - 1).push(all[n - 1]));
    }
}

/// What is trimmed is a part of the text.
proof fn lemma_trimmed_part(s: Seq<char>)
    ensures
        forall|c: char| trimmed(s).contains(c) ==> s.contains(c),
{
    lemma_skip_white(s, 0);
    let a = skip_white(s, 0);
    if a < s.len() {
        lemma_back_over_white(s, s.len() as int, a);
        let b = back_over_white(s, s.len() as int);
        assert forall|c: char| trimmed(s).contains(c) implies s.contains(c) by {
            let k = choose|k: int| 0 <= k < trimmed(s).len() && trimmed(s)[k] == c;
            assert(s[a + k] == c);
        }
    }
}

proof fn lemma_target(entry: Seq<char>, default_port: nat)
    requires
        !entry.contains(','),
    ensures
        plain(target_of(entry, default_port)),
        (forall|k: int| 0 <= k < entry.len() ==> !white(#[trigger] entry[k])) ==> forall|k: int|
            0 <= k < target_of(entry, default_port).len() ==> !white(
                #[trigger] target_of(entry, default_port)[k],
            ),
{
    reveal_strlit("https://");
    reveal_strlit("http://");
    reveal_strlit(":");
    let from: int = if begins(entry, "https://"@) {
        8
    } else if begins(entry, "http://"@) {
        7
    } else {
        0
    };
    let rest = entry.skip(from);
    assert(entry.skip(0) =~= entry);
    lemma_find(rest, 0, '/');
    let host = bare_host(entry);
    assert(host == rest.take(find(rest, 0, '/')));
    assert forall|k: int| 0 <= k < host.len() implies host[k] != ',' && host[k] != '/' && (
    #[trigger] host[k]) == entry[from + k] by {
        assert(rest[k] == entry[from + k]);
        assert(entry.contains(entry[from + k]));
    }
    lemma_dec(default_port);
    let t = target_of(entry, default_port);
    if !host.contains(':') {
        let d = dec(default_port);
        assert(t[host.len() as int] == ':');
        assert forall|k: int| 0 <= k < t.len() implies t[k] != ',' && t[k] != '/' && (k < host.len()
            || !white(#[trigger] t[k])) by {
            if k > host.len() {
                assert(t[k] == d[k - host.len() - 1]);
                assert(is_digit(d[k - host.len() - 1]));
            }
        }
    }
}

proof fn lemma_targets(entries: Seq<Seq<char>>, default_port: nat, n: int, k: int)
    requires
        0 <= n <= entries.len(),
        0 <= k < targets_in(entries, default_port, n).len(),
        forall|i: int| 0 <= i < entries.len() ==> !(#[trigger] entries[i]).contains(','),
    ensures
        plain(targets_in(entries, default_port, n)[k]),
        (forall|i: int|
            0 <= i < entries.len() ==> without_white(trimmed(#[trigger] entries[i])))
            ==> without_white(targets_in(entries, default_port, n)[k]),
    decreases n,
{
    if n > 0 {
        let before = targets_in(entries, default_port, n - 1);
        if k < before.len() {
            lemma_targets(entries, default_port, n - 1, k);
        } else {
            lemma_trimmed_part(entries[n - 1]);
            lemma_target(trimmed(entries[n - 1]), default_port);
        }
    }
}

/// Every target of a host list names a port, and none holds a path or a comma.
pub proof fn targets_name_a_port(list: Seq<char>, default_port: nat, k: int)
    requires
        0 <= k < hosts_of(list, default_port).len(),
    ensures
        hosts_of(list, default_port)[k].contains(':'),
        !hosts_of(list, default_port)[k].contains('/'),
        !hosts_of(list, default_port)[k].contains(','),
{
    let entries = split(list, ',');
    lemma_split_pieces(list, ',');
    lemma_targets(entries, default_port, entries.len() as int, k);
}

/// A target that stands in a host list names itself, under any port.
proof fn lemma_targets_stay(all: Seq<Seq<char>>, port: nat, n: int)
    requires
        0 <= n <= all.len(),
        forall|k: int| 0 <= k < n ==> plain(#[trigger] all[k]) && trimmed(all[k]) == all[k],
    ensures
        targets_in(all, port, n) == all.take(n),
    decreases n,
{
    if n > 0 {
        lemma_targets_stay(all, port, n - 1);
        let t = all[n - 1];
        assert(plain(t));
        reveal_strlit("https://");
        reveal_strlit("http://");
        assert(!begins(t, "https://"@)) by {
            if begins(t, "https://"@) {
                assert(t.subrange(0, 8)[6] == '/');
                assert(t[6] == '/');
            }
        }
        assert(!begins(t, "http://"@)) by {
            if begins(t, "http://"@) {
                assert(t.subrange(0, 7)[5] == '/');
                assert(t[5] == '/');
            }
        }
        lemma_find_is(t, 0, '/', t.len() as int);
        assert(t.take(t.len() as int) =~= t);
        assert(bare_host(t) == t);
        assert(all.take(n) =~= all.take(n - 1).push(t));
    }
}

/// Targets that no white space begins or ends are a host list that gives them back,
/// under any default port.
pub proof fn joined_targets_are_read_back(list: Seq<char>, default_port: nat, port: nat)
    requires
        forall|k: int|
            0 <= k < hosts_of(list, default_port).len() ==> trimmed(
                #[trigger] hosts_of(list, default_port)[k],
            ) == hosts_of(list, default_port)[k],
    ensures
        ({
            let targets = hosts_of(list, default_port);
            hosts_of(join(targets, ","@, targets.len() as int), port) == targets
        }),
{
    let targets = hosts_of(list, default_port);
    let n = targets.len() as int;
    let joined = join(targets, ","@, n);
    assert forall|k: int| 0 <= k < n implies plain(#[trigger] targets[k]) by {
        targets_name_a_port(list, default_port, k);
    }
    if n == 0 {
        assert(split(joined, ',') =~= seq![joined]);
        assert(trimmed(joined).len() == 0);
        assert(targets_in(split(joined, ','), port, 0) =~= targets);
    } else {
        lemma_split_join(targets, n);
        assert(targets.take(n) =~= targets);
        lemma_targets_stay(targets, port, n);
    }
}

/// Whether a text holds no white space.
pub open spec fn without_white(s: Seq<char>) -> bool {
    forall|k: int| 0 <= k < s.len() ==> !white(#[trigger] s[k])
}

/// Where no entry of a host list holds white space inside, its targets hold none, and
/// are a host list that gives them back, under any default port.
pub proof fn plain_lists_are_read_back(list: Seq<char>, default_port: nat, port: nat)
    requires
        forall|i: int|
            0 <= i < split(list, ',').len() ==> without_white(trimmed(#[trigger] split(list, ',')[i])),
    ensures
        ({
            let targets = hosts_of(list, default_port);
            &&& forall|k: int| 0 <= k < targets.len() ==> without_white(#[trigger] targets[k])
            &&& hosts_of(join(targets, ","@, targets.len() as int), port) == targets
        }),
{
    let entries = split(list, ',');
    let targets = hosts_of(list, default_port);
    lemma_split_pieces(list, ',');
    assert forall|k: int| 0 <= k < targets.len() implies without_white(#[trigger] targets[k])
        && trimmed(targets[k]) == targets[k] by {
        lemma_targets(entries, default_port, entries.len() as int, k);
        lemma_trimmed_is_kept(targets[k]);
    }
    joined_targets_are_read_back(list, default_port, port);
}

// ── Tailnet peers ────────────────────────────────────────────────────────────

/// The value of an octet of an IPv4 address.
pub open spec fn octet(s: Seq<char>) -> Option<nat> {
    if s.len() == 0 || !is_digit(s[0]) {
        None
    } else {
        match parsed_uint(s, 255) {
            Ok(n) => Some(n),
            Err(_) => None,
        }
    }
}

/// Whether `s` is an IPv4 address in 100.64.0.0/10.
pub open spec fn cgnat(s: Seq<char>) -> bool {
    let p = split(s, '.');
    &&& p.len() == 4
    &&& octet(p[0]) == Some(100nat)
    &&& octet(p[1]) matches Some(n)
    &&& 64 <= n <= 127
    &&& octet(p[2]) is Some
    &&& octet(p[3]) is Some
}

/// Whether `s` is an address of a tailnet: in 100.64.0.0/10, or in
/// fd7a:115c:a1e0::/48.
pub open spec fn tailnet_address(s: Seq<char>) -> bool {
    cgnat(s) || begins(s, "fd7a:115c:a1e0:"@)
}

/// Whether `offline` stands in `s`, in any case.
pub open spec fn marked_offline(s: Seq<char>) -> bool {
    exists|i: int|
        0 <= i && i + 7 <= s.len() && #[trigger] same_but_for_case(s.subrange(i, i + 7), "offline"@)
}

/// The host that a line of the status names, if it is an online peer.
pub open spec fn peer_in(line: Seq<char>) -> Option<Seq<char>> {
    let t = trimmed(line);
    let parts = words(t);
    if parts.len() < 2 || !tailnet_address(parts[0]) || marked_offline(t) || parts[1] == "-"@ {
        None
    } else {
        Some(parts[1])
    }
}

/// The online peers of the first `n` lines.
pub open spec fn peers_in(all: Seq<Seq<char>>, n: int) -> Seq<Seq<char>>
    decreases n,
{
    if n <= 0 {
        Seq::empty()
    } else {
        match peer_in(all[n - 1]) {
            Some(host) => peers_in(all, n - 1).push(host),
            None => peers_in(all, n - 1),
        }
    }
}

/// An IPv4 address in words.
pub open spec fn dotted(a: nat, b: nat, c: nat, d: nat) -> Seq<char> {
    dec(a) + seq!['.'] + dec(b) + seq!['.'] + dec(c) + seq!['.'] + dec(d)
}

proof fn lemma_octet(n: nat)
    ensures
        n <= 255 ==> octet(dec(n)) == Some(n),
        !dec(n).contains('.'),
        without_white(dec(n)),
{
    lemma_dec(n);
    if n <= 255 {
        dec_parses_back(n, 255);
    }
    assert(is_digit(dec(n)[0]));
    if dec(n).contains('.') {
        let k = choose|k: int| 0 <= k < dec(n).len() && dec(n)[k] == '.';
        assert(is_digit(dec(n)[k]));
    }
    assert forall|k: int| 0 <= k < dec(n).len() implies !white(#[trigger] dec(n)[k]) by {
        assert(is_digit(dec(n)[k]));
    }
}

proof fn lemma_dotted(a: nat, b: nat, c: nat, d: nat)
    ensures
        split(dotted(a, b, c, d), '.') == seq![dec(a), dec(b), dec(c), dec(d)],
        without_white(dotted(a, b, c, d)),
        dotted(a, b, c, d).len() > 0,
{
    lemma_octet(a);
    lemma_octet(b);
    lemma_octet(c);
    lemma_octet(d);
    let dot = seq!['.'];
    let two = dec(a) + dot + dec(b);
    let three = two + dot + dec(c);
    lemma_no_piece(dec(a), '.');
    lemma_split_push(dec(a), dec(b), '.');
    lemma_split_push(two, dec(c), '.');
    lemma_split_push(three, dec(d), '.');
    assert(split(three + dot + dec(d), '.') =~= seq![dec(a), dec(b), dec(c), dec(d)]);
    lemma_dec(a);
    let t = dotted(a, b, c, d);
    assert forall|k: int| 0 <= k < t.len() implies !white(#[trigger] t[k]) by {
        let (la, lb, lc) = (dec(a).len(), dec(b).len(), dec(c).len());
        if k < la {
            assert(t[k] == dec(a)[k]);
        } else if la < k < la + 1 + lb {
            assert(t[k] == dec(b)[k - la - 1]);
        } else if la + 1 + lb < k < la + lb + lc + 2 {
            assert(t[k] == dec(c)[k - la - lb - 2]);
        } else if k > la + lb + lc + 2 {
            assert(t[k] == dec(d)[k - la - lb - lc - 3]);
        }
    }
}

/// An address is one of a tailnet where its first number is 100 and its second lies
/// between 64 and 127, whatever the others are, and nowhere else; or where it begins with
/// the prefix of the private IPv6 range.
pub proof fn tailnet_addresses(a: nat, b: nat, c: nat, d: nat, rest: Seq<char>)
    requires
        a <= 255,
        b <= 255,
        c <= 255,
        d <= 255,
    ensures
        tailnet_address(dotted(a, b, c, d)) <==> a == 100 && 64 <= b <= 127,
        tailnet_address("fd7a:115c:a1e0:"@ + rest),
{
    lemma_dotted(a, b, c, d);
    lemma_octet(a);
    lemma_octet(b);
    lemma_octet(c);
    lemma_octet(d);
    reveal_strlit("fd7a:115c:a1e0:");
    let prefix = "fd7a:115c:a1e0:"@;
    let t = dotted(a, b, c, d);
    lemma_dec(a);
    assert(t[0] == dec(a)[0]);
    assert(is_digit(dec(a)[0]));
    if begins(t, prefix) {
        assert(t.subrange(0, 15)[0] == 'f');
    }
    assert((prefix + rest).subrange(0, 15) =~= prefix);
}

/// Whether `offline` stands in a line, each letter in either case.
pub open spec fn says_offline(line: Seq<char>) -> bool {
    exists|i: int| #[trigger] offline_at(line, i)
}

/// Whether `offline` stands at an index, each letter in either case.
pub open spec fn offline_at(line: Seq<char>, i: int) -> bool {
    &&& 0 <= i
    &&& i + 7 <= line.len()
    &&& line[i] == 'o' || line[i] == 'O'
    &&& line[i + 1] == 'f' || line[i + 1] == 'F'
    &&& line[i + 2] == 'f' || line[i + 2] == 'F'
    &&& line[i + 3] == 'l' || line[i + 3] == 'L'
    &&& line[i + 4] == 'i' || line[i + 4] == 'I'
    &&& line[i + 5] == 'n' || line[i + 5] == 'N'
    &&& line[i + 6] == 'e' || line[i + 6] == 'E'
}

proof fn lemma_lower(c: char, l: char, u: char)
    requires
        'a' <= l <= 'z',
        u as int + 32 == l as int,
    ensures
        lower(c) == lower(l) <==> c == l || c == u,
{
    crate::text::char_range(c);
    crate::text::char_range(l);
    crate::text::char_range(u);
}

proof fn lemma_offline_at(line: Seq<char>, i: int)
    requires
        0 <= i,
        i + 7 <= line.len(),
    ensures
        same_but_for_case(line.subrange(i, i + 7), "offline"@) <==> offline_at(line, i),
{
    reveal_strlit("offline");
    let w = line.subrange(i, i + 7);
    assert forall|k: int| 0 <= k < 7 implies w[k] == #[trigger] line[i + k] by {}
    assert(w[0] == line[i] && w[1] == line[i + 1] && w[2] == line[i + 2] && w[3] == line[i + 3]
        && w[4] == line[i + 4] && w[5] == line[i + 5] && w[6] == line[i + 6]);
    lemma_lower(w[0], 'o', 'O');
    lemma_lower(w[1], 'f', 'F');
    lemma_lower(w[2], 'f', 'F');
    lemma_lower(w[3], 'l', 'L');
    lemma_lower(w[4], 'i', 'I');
    lemma_lower(w[5], 'n', 'N');
    lemma_lower(w[6], 'e', 'E');
    if same_but_for_case(w, "offline"@) {
        assert(lower(w[0]) == lower("offline"@[0]) && lower(w[1]) == lower("offline"@[1]) && lower(
            w[2],
        ) == lower("offline"@[2]) && lower(w[3]) == lower("offline"@[3]) && lower(w[4]) == lower(
            "offline"@[4],
        ) && lower(w[5]) == lower("offline"@[5]) && lower(w[6]) == lower("offline"@[6]));
    }
    if offline_at(line, i) {
        assert forall|k: int| 0 <= k < 7 implies lower(#[trigger] w[k]) == lower("offline"@[k]) by {
            assert(k == 0 || k == 1 || k == 2 || k == 3 || k == 4 || k == 5 || k == 6);
        }
    }
}

/// The trimmed line is the part between its first and last characters that are no white
/// space.
proof fn lemma_trimmed_is(line: Seq<char>, k: int)
    requires
        0 <= k < line.len(),
        !white(line[k]),
    ensures
        ({
            let a = skip_white(line, 0);
            let b = back_over_white(line, line.len() as int);
            0 <= a <= k < b <= line.len() && trimmed(line) == line.subrange(a, b)
        }),
{
    lemma_skip_white(line, 0);
    lemma_back_over_white(line, line.len() as int, k);
}

/// A line that says `offline` anywhere, in any case, is no peer.
pub proof fn offline_lines_are_no_peers(line: Seq<char>)
    requires
        says_offline(line),
    ensures
        peer_in(line) is None,
{
    let i = choose|i: int| #[trigger] offline_at(line, i);
    lemma_trimmed_is(line, i);
    lemma_trimmed_is(line, i + 6);
    let a = skip_white(line, 0);
    let b = back_over_white(line, line.len() as int);
    let t = trimmed(line);
    lemma_offline_at(line, i);
    assert(t.subrange(i - a, i - a + 7) =~= line.subrange(i, i + 7));
    assert(marked_offline(t));
}

proof fn lemma_not_offline(line: Seq<char>, k: int)
    requires
        0 <= k < line.len(),
        !white(line[k]),
        !says_offline(line),
    ensures
        !marked_offline(trimmed(line)),
{
    lemma_trimmed_is(line, k);
    let a = skip_white(line, 0);
    let t = trimmed(line);
    assert forall|i: int| 0 <= i && i + 7 <= t.len() implies !#[trigger] same_but_for_case(
        t.subrange(i, i + 7),
        "offline"@,
    ) by {
        assert(t.subrange(i, i + 7) =~= line.subrange(a + i, a + i + 7));
        lemma_offline_at(line, a + i);
        assert(!offline_at(line, a + i));
    }
}

proof fn lemma_words_after_gap(gap: Seq<char>, rest: Seq<char>)
    requires
        forall|k: int| 0 <= k < gap.len() ==> white(#[trigger] gap[k]),
    ensures
        words(gap + rest) == words(rest),
    decreases gap.len(),
{
    if gap.len() > 0 {
        assert(white(gap[0]));
        let more = gap.skip(1);
        assert forall|k: int| 0 <= k < more.len() implies white(#[trigger] more[k]) by {
            assert(more[k] == gap[k + 1]);
        }
        lemma_words_after_gap(more, rest);
        lemma_words_after_white(gap[0], more + rest);
        assert(gap + rest =~= seq![gap[0]] + (more + rest));
    } else {
        assert(gap + rest =~= rest);
    }
}

/// The first two words of a line, and that nothing more of it matters for them.
proof fn lemma_two_words(first: Seq<char>, gap: Seq<char>, second: Seq<char>, rest: Seq<char>)
    requires
        first.len() > 0,
        without_white(first),
        gap.len() > 0,
        forall|k: int| 0 <= k < gap.len() ==> white(#[trigger] gap[k]),
        second.len() > 0,
        without_white(second),
        rest.len() == 0 || white(rest[0]),
    ensures
        ({
            let w = words(first + gap + second + rest);
            w.len() >= 2 && w[0] == first && w[1] == second
        }),
{
    let line = first + gap + second + rest;
    let tail = second + rest;
    assert(white(gap[0]));
    let more = gap.skip(1);
    assert forall|k: int| 0 <= k < more.len() implies white(#[trigger] more[k]) by {
        assert(more[k] == gap[k + 1]);
    }
    assert(line =~= first + seq![gap[0]] + (more + tail));
    lemma_words_cons(first, gap[0], more + tail);
    lemma_words_after_gap(more, tail);
    if rest.len() == 0 {
        assert(tail =~= second);
        lemma_words_single(second);
    } else {
        assert(tail =~= second + seq![rest[0]] + rest.skip(1));
        lemma_words_cons(second, rest[0], rest.skip(1));
    }
}

/// A line whose first word is an address of the tailnet and whose second word is a name
/// is that peer, whatever follows, if the line does not say `offline`. White space before
/// the line and behind it does not matter.
pub proof fn online_lines_are_peers(
    before: Seq<char>,
    address: Seq<char>,
    gap: Seq<char>,
    host: Seq<char>,
    rest: Seq<char>,
)
    requires
        forall|k: int| 0 <= k < before.len() ==> white(#[trigger] before[k]),
        address.len() > 0,
        without_white(address),
        gap.len() > 0,
        forall|k: int| 0 <= k < gap.len() ==> white(#[trigger] gap[k]),
        host.len() > 0,
        without_white(host),
        rest.len() == 0 || white(rest[0]),
        !says_offline(before + address + gap + host + rest),
    ensures
        ({
            let peer = peer_in(before + address + gap + host + rest);
            &&& tailnet_address(address) && host != "-"@ ==> peer == Some(host)
            &&& !tailnet_address(address) || host == "-"@ ==> peer is None
        }),
{
    let line = before + address + gap + host + rest;
    let start = before.len() as int;
    let end = start + address.len() + gap.len() + host.len();
    assert(line[start] == address[0]);
    assert(!white(address[0]));
    assert(line[end - 1] == host[host.len() - 1]);
    assert(!white(host[host.len() - 1]));
    lemma_trimmed_is(line, start);
    lemma_trimmed_is(line, end - 1);
    lemma_skip_white(line, 0);
    let a = skip_white(line, 0);
    assert(a == start) by {
        if a < start {
            assert(line[a] == before[a]);
            assert(white(before[a]));
        }
    }
    let b = back_over_white(line, line.len() as int);
    let less = rest.take(b - end);
    assert(trimmed(line) =~= address + gap + host + less);
    lemma_two_words(address, gap, host, less);
    lemma_not_offline(line, start);
}

/// An IPv4 peer of a tailnet that is online is found by its name.
pub proof fn ordinary_peers_are_found(
    b: nat,
    c: nat,
    d: nat,
    gap: Seq<char>,
    host: Seq<char>,
    rest: Seq<char>,
)
    requires
        64 <= b <= 127,
        c <= 255,
        d <= 255,
        gap.len() > 0,
        forall|k: int| 0 <= k < gap.len() ==> white(#[trigger] gap[k]),
        host.len() > 0,
        without_white(host),
        host != "-"@,
        rest.len() == 0 || white(rest[0]),
        !says_offline(dotted(100, b, c, d) + gap + host + rest),
    ensures
        peer_in(dotted(100, b, c, d) + gap + host + rest) == Some(host),
{
    let none = Seq::<char>::empty();
    let line = dotted(100, b, c, d) + gap + host + rest;
    assert(none + dotted(100, b, c, d) + gap + host + rest =~= line);
    lemma_dotted(100, b, c, d);
    tailnet_addresses(100, b, c, d, none);
    online_lines_are_peers(none, dotted(100, b, c, d), gap, host, rest);
}

/// A further line adds its peer behind the others, and nothing where it names none.
pub proof fn lines_add_their_peer(all: Seq<Seq<char>>, line: Seq<char>)
    ensures
        peers_in(all.push(line), all.len() as int + 1) == match peer_in(line) {
            Some(host) => peers_in(all, all.len() as int).push(host),
            None => peers_in(all, all.len() as int),
        },
        peers_in(all, 0).len() == 0,
{
    lemma_peers_prefix(all, line, all.len() as int);
}

proof fn lemma_peers_prefix(all: Seq<Seq<char>>, line: Seq<char>, n: int)
    requires
        n <= all.len(),
    ensures
        peers_in(all.push(line), n) == peers_in(all, n),
    decreases n,
{
    if n > 0 {
        lemma_peers_prefix(all, line, n - 1);
        assert(all.push(line)[n - 1] == all[n - 1]);
    }
}

fn octet_of(s: &str) -> (r: Option<u64>)
    ensures
        match (r, octet(s@)) {
            (Some(a), Some(b)) => a == b,
            (None, None) => true,
            _ => false,
        },
{
    let v = chars_of(s);
    if v.len() == 0 || v[0] < '0' || '9' < v[0] {
        return None;
    }
    match parse_uint(s, 255) {
        Ok(n) => Some(n),
        Err(_) => None,
    }
}

fn is_cgnat(s: &str) -> (r: bool)
    ensures
        r == cgnat(s@),
{
    let p = split_char(s, '.');
    let ghost all = texts(p@);
    assert(all.len() == p@.len());
    if p.len() != 4 {
        return false;
    }
    assert(all[0] == p@[0]@ && all[1] == p@[1]@ && all[2] == p@[2]@ && all[3] == p@[3]@);
    let first: bool = match octet_of(&p[0]) {
        Some(n) => n == 100,
        None => false,
    };
    let second: bool = match octet_of(&p[1]) {
        Some(n) => 64 <= n && n <= 127,
        None => false,
    };
    first && second && octet_of(&p[2]).is_some() && octet_of(&p[3]).is_some()
}

fn is_marked_offline(s: &str) -> (r: bool)
    ensures
        r == marked_offline(s@),
{
    proof {
        reveal_strlit("offline");
    }
    let v = chars_of(s);
    let word = chars_of("offline");
    let mut i: usize = 0;
    while i < v.len() && v.len() - i >= 7
        invariant
            v@ == s@,
            word@ == "offline"@,
            word@.len() == 7,
            i <= v.len(),
            forall|k: int|
                0 <= k < i && k + 7 <= s@.len() ==> !#[trigger] same_but_for_case(
                    s@.subrange(k, k + 7),
                    "offline"@,
                ),
        decreases v.len() - i,
    {
        let ghost w = s@.subrange(i as int, i + 7);
        let mut k: usize = 0;
        while k < 7 && to_lower(v[i + k]) == to_lower(word[k])
            invariant
                v@ == s@,
                word@ == "offline"@,
                word@.len() == 7,
                i + 7 <= v.len(),
                w == s@.subrange(i as int, i + 7),
                k <= 7,
                forall|m: int| 0 <= m < k ==> lower(#[trigger] w[m]) == lower(word@[m]),
            decreases 7 - k,
        {
            assert(w[k as int] == v@[i + k]);
            k += 1;
        }
        if k == 7 {
            assert(same_but_for_case(w, "offline"@));
            return true;
        }
        assert(!same_but_for_case(w, "offline"@)) by {
            assert(w[k as int] == v@[i + k]);
            if same_but_for_case(w, "offline"@) {
                assert(lower(w[k as int]) == lower("offline"@[k as int]));
            }
        }
        i += 1;
    }
    false
}

fn peer(line: &str) -> (r: Option<String>)
    ensures
        match (r, peer_in(line@)) {
            (Some(a), Some(b)) => a@ == b,
            (None, None) => true,
            _ => false,
        },
{
    let t = trim(line);
    let parts = split_words(&t);
    let ghost all = texts(parts@);
    assert(all.len() == parts@.len());
    if parts.len() < 2 {
        return None;
    }
    assert(all[0] == parts@[0]@ && all[1] == parts@[1]@);
    if !is_cgnat(&parts[0]) && !has_prefix(&parts[0], "fd7a:115c:a1e0:") {
        return None;
    }
    if is_marked_offline(&t) || crate::text::same(&parts[1], "-") {
        return None;
    }
    Some(parts[1].clone())
}

/// The hosts of the online peers that the status of a tailnet lists: the second
/// column of each line whose first column is an address of the tailnet and which
/// is not marked offline.
pub fn parse_tailnet_status(stdout: &str) -> (r: Vec<String>)
    ensures
        texts(r@) == peers_in(lines(stdout@), lines(stdout@).len() as int),
{
    let rows = split_lines(stdout);
    let ghost all = texts(rows@);
    let mut r: Vec<String> = Vec::new();
    let mut i: usize = 0;
    while i < rows.len()
        invariant
            i <= rows.len(),
            all == texts(rows@),
            all == lines(stdout@),
            texts(r@) == peers_in(all, i as int),
        decreases rows.len() - i,
    {
        assert(all[i as int] == rows@[i as int]@);
        match peer(&rows[i]) {
            Some(host) => {
                let ghost before = texts(r@);
                let ghost text = host@;
                r.push(host);
                assert(texts(r@) == before.push(text));
            },
            None => {},
        }
        i += 1;
    }
    assert(all.len() == rows@.len());
    r
}

/// The hosts of the online peers, by the status as the tool prints it. A status that
/// is no text is refused.
pub fn tailnet_hosts(stdout: &[u8]) -> (r: Result<Vec<String>, String>)
    ensures
        match r {
            Ok(v) => valid_utf8(stdout@) && texts(v@) == peers_in(
                lines(decode_utf8(stdout@)),
                lines(decode_utf8(stdout@)).len() as int,
            ),
            Err(e) => !valid_utf8(stdout@) && e@ == "tailscale output not UTF-8: "@
                + utf8_complaint(stdout@),
        },
{
    match utf8_text(stdout) {
        Ok(status) => {
            proof {
                encode_utf8_decode_utf8(status@);
            }
            Ok(parse_tailnet_status(status))
        },
        Err(why) => {
            let mut message: String = "tailscale output not UTF-8: ".to_string();
            message.append(&why);
            Err(message)
        },
    }
}

/// Why the status could not be had: how the tool ended, and what it said.
pub fn status_refusal(ended: &str, stderr: &[u8]) -> (r: String)
    ensures
        r@ == "tailscale status exited with "@ + ended@ + ": "@ + trimmed(lossy_text(stderr@)),
{
    let said = decode_lossy(stderr);
    let mut message: String = "tailscale status exited with ".to_string();
    message.append(ended);
    message.append(": ");
    message.append(&trim(&said));
    message
}

/// The scheme in front of a host and the path behind it do not matter; a host that names
/// no port gets the one that is the default.
pub proof fn schemes_and_paths_do_not_matter(host: Seq<char>, path: Seq<char>, port: nat)
    requires
        !host.contains('/'),
    ensures
        target_of(host, port) == if host.contains(':') {
            host
        } else {
            host + ":"@ + dec(port)
        },
        !begins(host + "/"@ + path, "http://"@) && !begins(host + "/"@ + path, "https://"@)
            ==> target_of(host + "/"@ + path, port) == target_of(host, port),
        target_of("http://"@ + host, port) == target_of(host, port),
        target_of("https://"@ + host, port) == target_of(host, port),
        target_of("http://"@ + host + "/"@ + path, port) == target_of(host, port),
        target_of("https://"@ + host + "/"@ + path, port) == target_of(host, port),
{
    reveal_strlit("http://");
    reveal_strlit("https://");
    reveal_strlit("/");
    assert forall|k: int| 0 <= k < host.len() implies host[k] != '/' by {
        assert(host.contains(host[k]));
    }
    let n = host.len() as int;
    let long = host + "/"@ + path;
    lemma_find_is(host, 0, '/', n);
    assert(host.take(n) =~= host);
    lemma_find_is(long, 0, '/', n);
    assert(long.take(n) =~= host);
    if begins(host, "http://"@) {
        assert(host.subrange(0, 7)[5] == '/');
    }
    if begins(host, "https://"@) {
        assert(host.subrange(0, 8)[6] == '/');
    }
    let a = "http://"@ + host;
    let b = "https://"@ + host;
    let c = "http://"@ + host + "/"@ + path;
    let d = "https://"@ + host + "/"@ + path;
    assert(a.subrange(0, 7) =~= "http://"@ && a.skip(7) =~= host);
    assert(b.subrange(0, 8) =~= "https://"@ && b.skip(8) =~= host);
    assert(c.subrange(0, 7) =~= "http://"@ && c.skip(7) =~= long);
    assert(d.subrange(0, 8) =~= "https://"@ && d.skip(8) =~= long);
    if begins(a, "https://"@) {
        assert(a.subrange(0, 8)[4] == 's');
    }
    if begins(c, "https://"@) {
        assert(c.subrange(0, 8)[4] == 's');
    }
}

/// An entry behind a list adds its target, and a blank one adds none.
pub proof fn entries_add_their_target(list: Seq<char>, entry: Seq<char>, port: nat)
    requires
        !entry.contains(','),
    ensures
        hosts_of(list + ","@ + entry, port) == if trimmed(entry).len() == 0 {
            hosts_of(list, port)
        } else {
            hosts_of(list, port).push(target_of(trimmed(entry), port))
        },
{
    reveal_strlit(",");
    assert(","@ =~= seq![',']);
    lemma_split_push(list, entry, ',');
    let all = split(list, ',');
    lemma_targets_front(all.push(entry), all, port, all.len() as int);
}

proof fn lemma_targets_front(a: Seq<Seq<char>>, b: Seq<Seq<char>>, port: nat, n: int)
    requires
        n <= a.len(),
        n <= b.len(),
        forall|k: int| 0 <= k < n ==> a[k] == b[k],
    ensures
        targets_in(a, port, n) == targets_in(b, port, n),
    decreases n,
{
    if n > 0 {
        lemma_targets_front(a, b, port, n - 1);
    }
}

} // verus!
