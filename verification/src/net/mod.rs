//! What the app says to mail servers and makes of their answers: one session type per
//! protocol, opened and torn down per operation, never pooled.

pub mod auth;
pub mod errors;
pub mod imap;
pub mod smtp;

use vstd::prelude::*;
use crate::models;
use crate::text;

verus! {

/// Socket timeout for both protocols, in seconds. Generous on purpose: a first sync over
/// a slow link can take a while, and a tight timeout looks like a connection
/// failure.
pub const NET_TIMEOUT_SECONDS: u64 = 30;

// --- addresses of the machine itself --------------------------------------

/// The number that an IPv4 address writes between its dots: up to 255, in decimal digits, without
/// a zero before it.
pub open spec fn octet(s: Seq<char>) -> Option<nat> {
    if 1 <= s.len() <= 3 && text::all_digits(s) && (s.len() == 1 || s[0] != '0')
        && text::digits_value(s) <= 255 {
        Some(text::digits_value(s))
    } else {
        None
    }
}

/// Whether a text is an IPv4 address: four numbers between dots.
pub open spec fn is_ipv4(s: Seq<char>) -> bool {
    let parts = text::split(s, '.');
    parts.len() == 4 && forall|i: int| 0 <= i < 4 ==> octet(#[trigger] parts[i]) is Some
}

/// The number at a place of an IPv4 address.
pub open spec fn ipv4_octet(s: Seq<char>, i: int) -> nat {
    octet(text::split(s, '.')[i]).unwrap()
}

/// The value of a hexadecimal digit.
pub open spec fn hex_value(c: char) -> nat {
    if '0' <= c <= '9' {
        (c as u32 - 48) as nat
    } else if 'a' <= c <= 'f' {
        (c as u32 - 87) as nat
    } else {
        (c as u32 - 55) as nat
    }
}

/// The value of a text of hexadecimal digits.
pub open spec fn hex_number(s: Seq<char>) -> nat
    decreases s.len(),
{
    if s.len() == 0 {
        0
    } else {
        hex_number(s.drop_last()) * 16 + hex_value(s.last())
    }
}

/// The number that an IPv6 address writes between its colons: one to four hexadecimal digits.
pub open spec fn hex_group(s: Seq<char>) -> Option<nat> {
    if 1 <= s.len() <= 4 && forall|i: int| 0 <= i < s.len() ==> models::is_hex_digit(s[i]) {
        Some(hex_number(s))
    } else {
        None
    }
}

/// The groups that some pieces of an IPv6 address write, the first `n` of them. An IPv4 address
/// stands for two groups, and only at the end of the whole address, which is where `whole` says
/// that the last piece stands.
pub open spec fn groups(parts: Seq<Seq<char>>, n: int, whole: bool) -> Option<Seq<nat>>
    decreases n,
{
    if n <= 0 || n > parts.len() {
        Some(Seq::empty())
    } else {
        match groups(parts, n - 1, whole) {
            None => None,
            Some(before) => {
                let part = parts[n - 1];
                if whole && n == parts.len() && is_ipv4(part) {
                    Some(
                        before.push(ipv4_octet(part, 0) * 256 + ipv4_octet(part, 1)).push(
                            ipv4_octet(part, 2) * 256 + ipv4_octet(part, 3),
                        ),
                    )
                } else {
                    match hex_group(part) {
                        Some(g) => Some(before.push(g)),
                        None => None,
                    }
                }
            },
        }
    }
}

/// The groups on one side of a double colon.
pub open spec fn side(s: Seq<char>, whole: bool) -> Option<Seq<nat>> {
    if s.len() == 0 {
        Some(Seq::empty())
    } else {
        groups(text::split(s, ':'), text::split(s, ':').len() as int, whole)
    }
}

/// Whether groups are those of the address that ends in a one after nothing but zeros.
pub open spec fn ends_in_one(g: Seq<nat>) -> bool {
    g.len() > 0 && g.last() == 1 && forall|i: int| 0 <= i < g.len() - 1 ==> #[trigger] g[i] == 0
}

/// Whether groups are zeros alone.
pub open spec fn all_zero(g: Seq<nat>) -> bool {
    forall|i: int| 0 <= i < g.len() ==> #[trigger] g[i] == 0
}

/// Whether a text is an IPv6 address, and one of the machine itself: `::1`, however it is
/// written. A double colon stands for one group of zeros or more.
pub open spec fn is_ipv6_loopback(s: Seq<char>) -> bool {
    match text::find_text_at(s, "::"@, 0) {
        Some(k) => match (side(s.take(k), false), side(s.skip(k + 2), true)) {
            (Some(head), Some(tail)) => head.len() + tail.len() <= 7 && all_zero(head)
                && ends_in_one(tail),
            _ => false,
        },
        None => match side(s, true) {
            Some(all) => all.len() == 8 && ends_in_one(all),
            None => false,
        },
    }
}

/// Whether a text is an IPv4 address of the machine itself.
pub open spec fn is_ipv4_loopback(s: Seq<char>) -> bool {
    is_ipv4(s) && ipv4_octet(s, 0) == 127
}

/// Where the square brackets at the start of a text end.
pub open spec fn brackets_end(s: Seq<char>, i: int) -> int
    decreases s.len() - i,
{
    if 0 <= i < s.len() && (s[i] == '[' || s[i] == ']') {
        brackets_end(s, i + 1)
    } else {
        i
    }
}

/// Where the square brackets at the end of a text start.
pub open spec fn brackets_start(s: Seq<char>, low: int, j: int) -> int
    decreases j - low,
{
    if low < j <= s.len() && (s[j - 1] == '[' || s[j - 1] == ']') {
        brackets_start(s, low, j - 1)
    } else {
        j
    }
}

/// A host without white space and square brackets around it, in lower case.
pub open spec fn bare_host(host: Seq<char>) -> Seq<char> {
    let t = text::trim(host);
    let a = brackets_end(t, 0);
    text::lowercase(t.subrange(a, brackets_start(t, a, t.len() as int)))
}

/// Whether a host is the machine itself.
pub open spec fn names_loopback(host: Seq<char>) -> bool {
    let bare = bare_host(host);
    bare == "localhost"@ || bare == "localhost."@ || is_ipv4_loopback(bare) || is_ipv6_loopback(
        bare,
    )
}

fn octet_in(s: &[char]) -> (r: Option<u32>)
    ensures
        match r {
            Some(n) => octet(s@) == Some(n as nat),
            None => octet(s@) is None,
        },
{
    if s.len() < 1 || s.len() > 3 || (s.len() > 1 && (s[0] == '0' || s[0] == '+')) || s[0]
        == '+' {
        proof {
            if s.len() > 0 && s[0] == '+' {
                assert(!text::is_digit(s@[0]));
            }
        }
        return None;
    }
    match text::parse_number(s, 255) {
        Some(n) => Some(n as u32),
        None => None,
    }
}

fn ipv4_in(s: &[char]) -> (r: Option<Vec<u32>>)
    ensures
        match r {
            Some(v) => is_ipv4(s@) && v.len() == 4 && forall|i: int|
                0 <= i < 4 ==> #[trigger] v@[i] == ipv4_octet(s@, i) && v@[i] <= 255,
            None => !is_ipv4(s@),
        },
{
    let parts = text::split_at_char(s, '.');
    let ghost views = text::char_texts(parts@);
    assert(views.len() == parts.len());
    if parts.len() != 4 {
        return None;
    }
    let mut out: Vec<u32> = Vec::new();
    while out.len() < 4
        invariant
            parts.len() == 4,
            views == text::char_texts(parts@),
            views == text::split(s@, '.'),
            out.len() <= 4,
            forall|i: int|
                0 <= i < out.len() ==> octet(views[i]) == Some(#[trigger] out@[i] as nat)
                    && out@[i] <= 255,
        decreases 4 - out.len(),
    {
        let i: usize = out.len();
        assert(views[i as int] == parts@[i as int]@);
        match octet_in(&parts[i]) {
            Some(n) => {
                out.push(n);
            },
            None => {
                assert(octet(views[i as int]) is None);
                return None;
            },
        }
    }
    assert forall|i: int| 0 <= i < 4 implies octet(#[trigger] views[i]) is Some by {
        assert(octet(views[i]) == Some(out@[i] as nat));
    }
    Some(out)
}

fn hex_in(s: &[char]) -> (r: Option<u32>)
    ensures
        match r {
            Some(n) => hex_group(s@) == Some(n as nat),
            None => hex_group(s@) is None,
        },
{
    if s.len() < 1 || s.len() > 4 {
        return None;
    }
    let mut n: u32 = 0;
    let mut i: usize = 0;
    while i < s.len()
        invariant
            i <= s.len(),
            1 <= s.len() <= 4,
            n == hex_number(s@.take(i as int)),
            i == 0 ==> n == 0,
            i == 1 ==> n < 16,
            i == 2 ==> n < 256,
            i == 3 ==> n < 4096,
            i == 4 ==> n < 65536,
            forall|k: int| 0 <= k < i ==> models::is_hex_digit(s@[k]),
        decreases s.len() - i,
    {
        let c = s[i];
        let d: u32 = if '0' <= c && c <= '9' {
            c as u32 - 48
        } else if 'a' <= c && c <= 'f' {
            c as u32 - 87
        } else if 'A' <= c && c <= 'F' {
            c as u32 - 55
        } else {
            assert(!models::is_hex_digit(s@[i as int]));
            return None;
        };
        proof {
            assert(s@.take(i + 1).drop_last() =~= s@.take(i as int));
            assert(s@.take(i + 1).last() == c);
            assert(d == hex_value(c));
            assert(d < 16);
        }
        n = n * 16 + d;
        i = i + 1;
    }
    assert(s@.take(i as int) =~= s@);
    Some(n)
}

/// The numbers of a list.
pub open spec fn nats(v: Seq<u32>) -> Seq<nat> {
    Seq::new(v.len(), |i: int| v[i] as nat)
}

fn side_in(s: &[char], whole: bool) -> (r: Option<Vec<u32>>)
    ensures
        match r {
            Some(v) => side(s@, whole) == Some(nats(v@)),
            None => side(s@, whole) is None,
        },
{
    let mut out: Vec<u32> = Vec::new();
    assert(nats(out@) =~= Seq::empty());
    if s.len() == 0 {
        return Some(out);
    }
    let parts = text::split_at_char(s, ':');
    let ghost views = text::char_texts(parts@);
    assert(views.len() == parts.len());
    let mut i: usize = 0;
    while i < parts.len()
        invariant
            i <= parts.len(),
            views == text::char_texts(parts@),
            views.len() == parts.len(),
            views == text::split(s@, ':'),
            s@.len() > 0,
            groups(views, i as int, whole) == Some(nats(out@)),
        decreases parts.len() - i,
    {
        assert(views[i as int] == parts@[i as int]@);
        let ghost before = out@;
        let last: bool = whole && i == parts.len() - 1;
        let v4: Option<Vec<u32>> = if last {
            ipv4_in(&parts[i])
        } else {
            None
        };
        match v4 {
            Some(v) => {
                let high: u32 = v[0] * 256 + v[1];
                let low: u32 = v[2] * 256 + v[3];
                out.push(high);
                out.push(low);
                assert(nats(out@) =~= nats(before).push(high as nat).push(low as nat));
            },
            None => match hex_in(&parts[i]) {
                Some(g) => {
                    out.push(g);
                    assert(nats(out@) =~= nats(before).push(g as nat));
                },
                None => {
                    proof {
                        assert(groups(views, i + 1, whole) is None);
                        no_groups_after(views, i + 1, views.len() as int, whole);
                    }
                    return None;
                },
            },
        }
        i = i + 1;
    }
    Some(out)
}

proof fn no_groups_after(parts: Seq<Seq<char>>, i: int, n: int, whole: bool)
    requires
        0 <= i <= n <= parts.len(),
        groups(parts, i, whole) is None,
    ensures
        groups(parts, n, whole) is None,
    decreases n - i,
{
    if i < n {
        no_groups_after(parts, i, n - 1, whole);
    }
}

fn zeros(v: &[u32], end: usize) -> (r: bool)
    requires
        end <= v.len(),
    ensures
        r == forall|i: int| 0 <= i < end ==> #[trigger] nats(v@)[i] == 0,
{
    let mut i: usize = 0;
    while i < end
        invariant
            i <= end <= v.len(),
            forall|k: int| 0 <= k < i ==> #[trigger] nats(v@)[k] == 0,
        decreases end - i,
    {
        assert(nats(v@)[i as int] == v@[i as int]);
        if v[i] != 0 {
            return false;
        }
        i = i + 1;
    }
    true
}

fn one_at_end(v: &[u32]) -> (r: bool)
    ensures
        r == ends_in_one(nats(v@)),
{
    if v.len() == 0 {
        return false;
    }
    assert(nats(v@).last() == v@.last());
    v[v.len() - 1] == 1 && zeros(v, v.len() - 1)
}

fn ipv6_loopback(s: &[char]) -> (r: bool)
    ensures
        r == is_ipv6_loopback(s@),
{
    let colons = text::chars_of("::");
    proof {
        reveal_strlit("::");
        text::find_text_at_is_first(s@, colons@, 0);
    }
    match text::find_text(s, &colons, 0) {
        Some(k) => {
            let head = text::slice_of(s, 0, k);
            let tail = text::slice_of(s, k + 2, s.len());
            assert(head@ =~= s@.take(k as int));
            assert(tail@ =~= s@.skip(k + 2));
            match (side_in(&head, false), side_in(&tail, true)) {
                (Some(h), Some(t)) => {
                    assert(nats(h@).len() == h.len() && nats(t@).len() == t.len());
                    h.len() <= 7 && t.len() <= 7 - h.len() && zeros(&h, h.len()) && one_at_end(&t)
                },
                _ => false,
            }
        },
        None => match side_in(s, true) {
            Some(all) => {
                assert(nats(all@).len() == all.len());
                all.len() == 8 && one_at_end(&all)
            },
            None => false,
        },
    }
}

/// True for 127.0.0.1, ::1 and localhost.
///
/// Verifying certificates is the point of TLS, except on loopback. A local
/// bridge (ProtonMail Bridge, hydroxide) terminates TLS with a self-signed
/// certificate it generated on the machine itself, and there is no path to
/// sit on between two processes on the same host.
pub fn is_loopback(host: &str) -> (r: bool)
    ensures
        r == names_loopback(host@),
{
    let t = text::trimmed(&text::chars_of(host));
    let mut a: usize = 0;
    while a < t.len() && (t[a] == '[' || t[a] == ']')
        invariant
            a <= t.len(),
            brackets_end(t@, 0) == brackets_end(t@, a as int),
        decreases t.len() - a,
    {
        a = a + 1;
    }
    let mut j: usize = t.len();
    while a < j && (t[j - 1] == '[' || t[j - 1] == ']')
        invariant
            a <= j <= t.len(),
            brackets_start(t@, a as int, t@.len() as int) == brackets_start(
                t@,
                a as int,
                j as int,
            ),
        decreases j,
    {
        j = j - 1;
    }
    let bare = text::to_lowercase(&text::text_of(&text::slice_of(&t, a, j)));
    if text::same_str(&bare, "localhost") || text::same_str(&bare, "localhost.") {
        return true;
    }
    let chars = text::chars_of(&bare);
    match ipv4_in(&chars) {
        Some(v) => if v[0] == 127 {
            return true;
        },
        None => {},
    }
    ipv6_loopback(&chars)
}

proof fn octets_read_back(n: nat)
    requires
        n <= 255,
    ensures
        octet(text::decimal(n)) == Some(n),
        !text::decimal(n).contains('.'),
{
    let s = text::decimal(n);
    text::numbers_read_back(n, n, 0, 0);
    text::digits_have_no(n, '+');
    text::digits_have_no(n, '.');
    if s.len() > 1 && s[0] == '+' {
        assert(s.contains(s[0]));
    }
    assert(text::all_digits(s) && text::digits_value(s) == n);
    reveal_with_fuel(text::decimal, 4);
    if n >= 100 {
        assert(s[0] == text::digit_char(n / 10 / 10));
    } else if n >= 10 {
        assert(s[0] == text::digit_char(n / 10));
    }
}

/// An address of four numbers is the machine's own exactly if the first of them is the one that is
/// set aside for it, whatever the others are.
pub proof fn the_whole_net_is_local(a: nat, b: nat, c: nat, d: nat)
    requires
        a <= 255,
        b <= 255,
        c <= 255,
        d <= 255,
    ensures
        is_ipv4_loopback(
            text::join(
                seq![text::decimal(a), text::decimal(b), text::decimal(c), text::decimal(d)],
                seq!['.'],
            ),
        ) <==> a == 127,
{
    let parts = seq![text::decimal(a), text::decimal(b), text::decimal(c), text::decimal(d)];
    octets_read_back(a);
    octets_read_back(b);
    octets_read_back(c);
    octets_read_back(d);
    assert forall|i: int| 0 <= i < parts.len() implies !(#[trigger] parts[i]).contains('.')
        && octet(parts[i]) is Some by {
        assert(i == 0 || i == 1 || i == 2 || i == 3);
    }
    text::joined_pieces_come_apart(parts, '.');
    assert(parts[0] == text::decimal(a));
}

/// The short form of the machine's own address is told however many zeros its last group has, and no
/// other number in that group is the machine itself.
pub proof fn the_short_address_is_local(zeros: nat, digit: char)
    requires
        zeros <= 3,
        '0' <= digit <= '9',
    ensures
        is_ipv6_loopback("::"@ + Seq::new(zeros, |i: int| '0').push(digit)) <==> digit == '1',
{
    reveal_strlit("::");
    let tail = Seq::new(zeros, |i: int| '0').push(digit);
    let s = "::"@ + tail;
    let none = Seq::<char>::empty();
    assert(s.subrange(0, 2) =~= "::"@);
    assert(text::matches_at(s, "::"@, 0));
    assert(text::find_text_at(s, "::"@, 0) == Some(0int));
    assert(s.take(0) =~= none);
    assert(s.skip(2) =~= tail);
    let parts = seq![tail];
    assert(!tail.contains(':')) by {
        if tail.contains(':') {
            let k = choose|k: int| 0 <= k < tail.len() && tail[k] == ':';
            assert(tail[k] == '0' || tail[k] == digit);
        }
    }
    assert(!tail.contains('.')) by {
        if tail.contains('.') {
            let k = choose|k: int| 0 <= k < tail.len() && tail[k] == '.';
            assert(tail[k] == '0' || tail[k] == digit);
        }
    }
    text::joined_pieces_come_apart(parts, ':');
    text::joined_pieces_come_apart(parts, '.');
    assert(text::split(tail, ':') == parts);
    assert(text::split(tail, '.') == parts);
    assert(!is_ipv4(tail));
    assert forall|i: int| 0 <= i < tail.len() implies models::is_hex_digit(tail[i]) by {
        assert(tail[i] == '0' || tail[i] == digit);
    }
    zeros_are_nothing(zeros);
    assert(tail.drop_last() =~= Seq::new(zeros, |i: int| '0'));
    assert(hex_number(tail) == hex_value(digit));
    let g = seq![hex_value(digit)];
    assert(groups(parts, 0, true) == Some(Seq::<nat>::empty()));
    assert(Seq::<nat>::empty().push(hex_value(digit)) =~= g);
    assert(groups(parts, 1, true) == Some(g));
    assert(side(tail, true) == Some(g));
    assert(side(none, false) == Some(Seq::<nat>::empty()));
    assert(g.last() == hex_value(digit));
}

proof fn zeros_are_nothing(n: nat)
    ensures
        hex_number(Seq::new(n, |i: int| '0')) == 0,
    decreases n,
{
    if n > 0 {
        zeros_are_nothing((n - 1) as nat);
        let s = Seq::new(n, |i: int| '0');
        assert(s.drop_last() =~= Seq::new((n - 1) as nat, |i: int| '0'));
        assert(s.last() == '0');
    }
}

} // verus!
