//! Choice of alternative local IPv4 addresses for recovery.
//!
//! An IPv4 address is held as the `u32` whose big-endian bytes are its four
//! octets, so numeric order is the order of the octets.

use vstd::prelude::*;

verus! {

/// A local interface address that could carry the connection.
#[derive(Debug, PartialEq, Eq)]
pub struct PathCandidate {
    pub interface_name: String,
    pub local_ip: u32,
}

/// The first octet of an address.
pub open spec fn first_octet(ip: u32) -> nat {
    (ip as nat) / 0x100_0000
}

/// An address other than the active one that is not loopback
/// (`127.0.0.0/8`), unspecified (`0.0.0.0`), broadcast (`255.255.255.255`) or
/// multicast (`224.0.0.0/4`).
pub open spec fn usable_alternative(active_ip: u32, candidate_ip: u32) -> bool {
    &&& candidate_ip != active_ip
    &&& first_octet(candidate_ip) != 127
    &&& candidate_ip != 0
    &&& candidate_ip != 0xffff_ffff
    &&& !(224 <= first_octet(candidate_ip) <= 239)
}

/// The addresses that can replace the active one are exactly those other
/// than it that are not loopback (`127.0.0.0/8`), unspecified
/// (`0.0.0.0`), limited broadcast (`255.255.255.255`) or multicast
/// (`224.0.0.0/4`); every other address, private, shared or public, is
/// usable.
pub proof fn lemma_usable_alternative_classes(active_ip: u32, candidate_ip: u32)
    ensures
        usable_alternative(active_ip, candidate_ip) == (candidate_ip != active_ip && !(0x7f00_0000
            <= candidate_ip <= 0x7fff_ffff) && candidate_ip != 0 && candidate_ip != 0xffff_ffff
            && !(0xe000_0000 <= candidate_ip <= 0xefff_ffff)),
{
}

/// Lexicographic order of names by character. Strings compare by their
/// UTF-8 bytes, and UTF-8 keeps the order of code points, so this is the
/// order of `String`.
pub open spec fn name_le(a: Seq<char>, b: Seq<char>) -> bool
    decreases a.len(),
{
    if a.len() == 0 {
        true
    } else if b.len() == 0 {
        false
    } else if (a[0] as u32) != (b[0] as u32) {
        (a[0] as u32) < (b[0] as u32)
    } else {
        name_le(a.drop_first(), b.drop_first())
    }
}

pub proof fn lemma_name_le_total(a: Seq<char>, b: Seq<char>)
    ensures
        name_le(a, b) || name_le(b, a),
    decreases a.len(),
{
    if a.len() > 0 && b.len() > 0 && (a[0] as u32) == (b[0] as u32) {
        lemma_name_le_total(a.drop_first(), b.drop_first());
    }
}

pub proof fn lemma_name_le_transitive(a: Seq<char>, b: Seq<char>, c: Seq<char>)
    requires
        name_le(a, b),
        name_le(b, c),
    ensures
        name_le(a, c),
    decreases a.len(),
{
    if a.len() > 0 && b.len() > 0 && c.len() > 0 && (a[0] as u32) == (b[0] as u32) && (b[0] as u32)
        == (c[0] as u32) {
        lemma_name_le_transitive(a.drop_first(), b.drop_first(), c.drop_first());
    }
}

/// Compares two names by character.
fn name_le_exec(a: &String, b: &String) -> (r: bool)
    ensures
        r == name_le(a@, b@),
{
    let sa = a.as_str();
    let sb = b.as_str();
    let na = sa.unicode_len();
    let nb = sb.unicode_len();
    let mut i: usize = 0;
    assert(a@.skip(0) =~= a@);
    assert(b@.skip(0) =~= b@);
    while i < na && i < nb
        invariant
            na == a@.len(),
            nb == b@.len(),
            sa@ == a@,
            sb@ == b@,
            i <= na,
            i <= nb,
            name_le(a@, b@) == name_le(a@.skip(i as int), b@.skip(i as int)),
        decreases na - i,
    {
        let ca = sa.get_char(i);
        let cb = sb.get_char(i);
        assert(a@.skip(i as int)[0] == ca);
        assert(b@.skip(i as int)[0] == cb);
        if (ca as u32) != (cb as u32) {
            return (ca as u32) < (cb as u32);
        }
        assert(a@.skip(i as int).drop_first() =~= a@.skip(i + 1));
        assert(b@.skip(i as int).drop_first() =~= b@.skip(i + 1));
        i = i + 1;
    }
    i == na
}

/// Whether `candidate_ip` may replace the active address `active_ip`.
pub fn is_usable_alternative(active_ip: u32, candidate_ip: u32) -> (r: bool)
    ensures
        r == usable_alternative(active_ip, candidate_ip),
        r == (candidate_ip != active_ip && !(0x7f00_0000 <= candidate_ip <= 0x7fff_ffff)
            && candidate_ip != 0 && candidate_ip != 0xffff_ffff && !(0xe000_0000 <= candidate_ip
            <= 0xefff_ffff)),
{
    let first = candidate_ip / 0x100_0000;
    candidate_ip != active_ip && first != 127 && candidate_ip != 0 && candidate_ip != 0xffff_ffff
        && !(224 <= first && first <= 239)
}

/// Addresses strictly increase along `out`.
pub open spec fn sorted_by_address(out: Seq<PathCandidate>) -> bool {
    forall|a: int, b: int| 0 <= a < b < out.len() ==> out[a].local_ip < out[b].local_ip
}

/// `x` is, by address and name, a usable candidate of `input`.
pub open spec fn is_source(active_ip: u32, input: Seq<PathCandidate>, x: PathCandidate) -> bool {
    exists|j: int|
        #![trigger input[j]]
        0 <= j < input.len() && usable_alternative(active_ip, input[j].local_ip)
            && input[j].local_ip == x.local_ip && input[j].interface_name@ == x.interface_name@
}

/// `out` has an entry with the address of `d` and a name no greater than
/// that of `d`.
pub open spec fn has_best(out: Seq<PathCandidate>, d: PathCandidate) -> bool {
    exists|k: int|
        #![trigger out[k]]
        0 <= k < out.len() && out[k].local_ip == d.local_ip && name_le(
            out[k].interface_name@,
            d.interface_name@,
        )
}

/// Every entry of `out` is a usable candidate of `input`.
pub open spec fn drawn_from(active_ip: u32, input: Seq<PathCandidate>, out: Seq<PathCandidate>) -> bool {
    forall|k: int| 0 <= k < out.len() ==> is_source(active_ip, input, #[trigger] out[k])
}

/// Every usable candidate of `input` has an entry in `out` with its address
/// and a name no greater than its own.
pub open spec fn covers(active_ip: u32, input: Seq<PathCandidate>, out: Seq<PathCandidate>) -> bool {
    forall|j: int|
        0 <= j < input.len() && usable_alternative(active_ip, (#[trigger] input[j]).local_ip)
            ==> has_best(out, input[j])
}

/// The result of candidate filtering: in strictly increasing address order,
/// for each address that some usable candidate has, the candidate with that
/// address and the least interface name.
pub open spec fn is_filtered(active_ip: u32, input: Seq<PathCandidate>, out: Seq<PathCandidate>) -> bool {
    &&& sorted_by_address(out)
    &&& drawn_from(active_ip, input, out)
    &&& covers(active_ip, input, out)
}

proof fn lemma_source_prepend(active_ip: u32, c: PathCandidate, done: Seq<PathCandidate>, x: PathCandidate)
    requires
        is_source(active_ip, done, x),
    ensures
        is_source(active_ip, seq![c] + done, x),
{
    let j0 = choose|j: int|
        #![trigger done[j]]
        0 <= j < done.len() && usable_alternative(active_ip, done[j].local_ip)
            && done[j].local_ip == x.local_ip && done[j].interface_name@ == x.interface_name@;
    let now_done = seq![c] + done;
    assert(now_done[j0 + 1] == done[j0]);
}

proof fn lemma_source_head(active_ip: u32, c: PathCandidate, done: Seq<PathCandidate>)
    requires
        usable_alternative(active_ip, c.local_ip),
    ensures
        is_source(active_ip, seq![c] + done, c),
{
    let now_done = seq![c] + done;
    assert(now_done[0] == c);
}

proof fn lemma_prepend_drawn(active_ip: u32, c: PathCandidate, done: Seq<PathCandidate>, out: Seq<PathCandidate>)
    requires
        drawn_from(active_ip, done, out),
    ensures
        drawn_from(active_ip, seq![c] + done, out),
{
    assert forall|k: int| 0 <= k < out.len() implies is_source(
        active_ip,
        seq![c] + done,
        #[trigger] out[k],
    ) by {
        lemma_source_prepend(active_ip, c, done, out[k]);
    }
}

proof fn lemma_covers_tail(
    active_ip: u32,
    c: PathCandidate,
    done: Seq<PathCandidate>,
    out: Seq<PathCandidate>,
    j: int,
)
    requires
        covers(active_ip, done, out),
        1 <= j < done.len() + 1,
        usable_alternative(active_ip, (seq![c] + done)[j].local_ip),
    ensures
        has_best(out, (seq![c] + done)[j]),
{
    assert((seq![c] + done)[j] == done[j - 1]);
}

proof fn lemma_skip_unusable(active_ip: u32, c: PathCandidate, done: Seq<PathCandidate>, out: Seq<PathCandidate>)
    requires
        is_filtered(active_ip, done, out),
        !usable_alternative(active_ip, c.local_ip),
    ensures
        is_filtered(active_ip, seq![c] + done, out),
{
    lemma_prepend_drawn(active_ip, c, done, out);
    let now_done = seq![c] + done;
    assert forall|j: int|
        0 <= j < now_done.len() && usable_alternative(active_ip, (#[trigger] now_done[j]).local_ip)
            implies has_best(out, now_done[j]) by {
        lemma_covers_tail(active_ip, c, done, out, j);
    }
}

proof fn lemma_keep_entry(
    active_ip: u32,
    c: PathCandidate,
    done: Seq<PathCandidate>,
    out: Seq<PathCandidate>,
    k: int,
)
    requires
        is_filtered(active_ip, done, out),
        0 <= k < out.len(),
        out[k].local_ip == c.local_ip,
        name_le(out[k].interface_name@, c.interface_name@),
    ensures
        is_filtered(active_ip, seq![c] + done, out),
{
    lemma_prepend_drawn(active_ip, c, done, out);
    let now_done = seq![c] + done;
    assert forall|j: int|
        0 <= j < now_done.len() && usable_alternative(active_ip, (#[trigger] now_done[j]).local_ip)
            implies has_best(out, now_done[j]) by {
        if j > 0 {
            lemma_covers_tail(active_ip, c, done, out, j);
        } else {
            assert(now_done[0] == c);
            assert(out[k].local_ip == c.local_ip);
        }
    }
}

proof fn lemma_replace_entry(
    active_ip: u32,
    c: PathCandidate,
    done: Seq<PathCandidate>,
    out: Seq<PathCandidate>,
    k: int,
    out2: Seq<PathCandidate>,
)
    requires
        is_filtered(active_ip, done, out),
        usable_alternative(active_ip, c.local_ip),
        0 <= k < out.len(),
        out[k].local_ip == c.local_ip,
        name_le(c.interface_name@, out[k].interface_name@),
        out2 == out.update(k, c),
    ensures
        is_filtered(active_ip, seq![c] + done, out2),
{
    let now_done = seq![c] + done;
    assert forall|m: int| 0 <= m < out2.len() implies is_source(
        active_ip,
        now_done,
        #[trigger] out2[m],
    ) by {
        if m != k {
            lemma_source_prepend(active_ip, c, done, out[m]);
        } else {
            lemma_source_head(active_ip, c, done);
        }
    }
    assert forall|j: int|
        0 <= j < now_done.len() && usable_alternative(active_ip, (#[trigger] now_done[j]).local_ip)
            implies has_best(out2, now_done[j]) by {
        if j == 0 {
            lemma_name_le_reflexive(c.interface_name@);
            assert(now_done[0] == c);
            assert(out2[k] == c);
        } else {
            let d = now_done[j];
            lemma_covers_tail(active_ip, c, done, out, j);
            let m = choose|m: int|
                #![trigger out[m]]
                0 <= m < out.len() && out[m].local_ip == d.local_ip && name_le(
                    out[m].interface_name@,
                    d.interface_name@,
                );
            if m == k {
                lemma_name_le_transitive(c.interface_name@, out[m].interface_name@, d.interface_name@);
            }
            assert(out2[m].local_ip == d.local_ip);
        }
    }
}

proof fn lemma_insert_sorted(out: Seq<PathCandidate>, c: PathCandidate, k: int)
    requires
        sorted_by_address(out),
        0 <= k <= out.len(),
        forall|a: int| 0 <= a < k ==> out[a].local_ip < c.local_ip,
        k < out.len() ==> out[k].local_ip > c.local_ip,
    ensures
        sorted_by_address(out.insert(k, c)),
{
    let out2 = out.insert(k, c);
    assert forall|a: int, b: int| 0 <= a < b < out2.len() implies out2[a].local_ip
        < out2[b].local_ip by {
        if b < k {
            assert(out2[a] == out[a] && out2[b] == out[b]);
        } else if b == k {
            assert(out2[a] == out[a]);
        } else if a < k {
            assert(out2[a] == out[a] && out2[b] == out[b - 1]);
            if b - 1 > k {
                assert(out[k].local_ip < out[b - 1].local_ip);
            }
        } else if a == k {
            assert(out2[b] == out[b - 1]);
            if b - 1 > k {
                assert(out[k].local_ip < out[b - 1].local_ip);
            }
        } else {
            assert(out2[a] == out[a - 1] && out2[b] == out[b - 1]);
        }
    }
}

proof fn lemma_insert_entry(
    active_ip: u32,
    c: PathCandidate,
    done: Seq<PathCandidate>,
    out: Seq<PathCandidate>,
    k: int,
    out2: Seq<PathCandidate>,
)
    requires
        is_filtered(active_ip, done, out),
        usable_alternative(active_ip, c.local_ip),
        0 <= k <= out.len(),
        forall|a: int| 0 <= a < k ==> out[a].local_ip < c.local_ip,
        k < out.len() ==> out[k].local_ip > c.local_ip,
        out2 == out.insert(k, c),
    ensures
        is_filtered(active_ip, seq![c] + done, out2),
{
    let now_done = seq![c] + done;
    lemma_insert_sorted(out, c, k);
    assert forall|m: int| 0 <= m < out2.len() implies is_source(
        active_ip,
        now_done,
        #[trigger] out2[m],
    ) by {
        if m < k {
            assert(out2[m] == out[m]);
            lemma_source_prepend(active_ip, c, done, out[m]);
        } else if m == k {
            lemma_source_head(active_ip, c, done);
        } else {
            assert(out2[m] == out[m - 1]);
            lemma_source_prepend(active_ip, c, done, out[m - 1]);
        }
    }
    assert forall|j: int|
        0 <= j < now_done.len() && usable_alternative(active_ip, (#[trigger] now_done[j]).local_ip)
            implies has_best(out2, now_done[j]) by {
        if j == 0 {
            lemma_name_le_reflexive(c.interface_name@);
            assert(now_done[0] == c);
            assert(out2[k] == c);
        } else {
            let d = now_done[j];
            lemma_covers_tail(active_ip, c, done, out, j);
            let m = choose|m: int|
                #![trigger out[m]]
                0 <= m < out.len() && out[m].local_ip == d.local_ip && name_le(
                    out[m].interface_name@,
                    d.interface_name@,
                );
            if m < k {
                assert(out2[m] == out[m]);
            } else {
                assert(out2[m + 1] == out[m]);
            }
        }
    }
}

/// Keeps the usable alternatives among `candidates`, one per address (the
/// one with the least interface name), ordered by address.
pub fn filter_ipv4_candidates(active_ip: u32, candidates: Vec<PathCandidate>) -> (r: Vec<
    PathCandidate,
>)
    ensures
        is_filtered(active_ip, candidates@, r@),
{
    let ghost input = candidates@;
    let mut rest = candidates;
    let mut out: Vec<PathCandidate> = Vec::new();
    assert(input.skip(input.len() as int) =~= Seq::<PathCandidate>::empty());
    assert(input.take(input.len() as int) =~= input);
    while rest.len() > 0
        invariant
            rest@ == input.take(rest@.len() as int),
            rest@.len() <= input.len(),
            is_filtered(active_ip, input.skip(rest@.len() as int), out@),
        decreases rest@.len(),
    {
        let ghost n = rest@.len() as int;
        let c = rest.pop().unwrap();
        proof {
            assert(c == input[n - 1]);
            assert(input.skip(n - 1) =~= seq![c] + input.skip(n));
        }
        let ghost done = input.skip(n);
        if is_usable_alternative(active_ip, c.local_ip) {
            insert_best(&mut out, c, Ghost(done), Ghost(active_ip));
        } else {
            proof {
                lemma_skip_unusable(active_ip, c, done, out@);
            }
        }
        assert(rest@ =~= input.take(rest@.len() as int));
    }
    assert(input.skip(0) =~= input);
    out
}

/// Adds the usable candidate `c` to a filtered list of `done`, giving the
/// filtered list of `[c] + done`.
fn insert_best(
    out: &mut Vec<PathCandidate>,
    c: PathCandidate,
    Ghost(done): Ghost<Seq<PathCandidate>>,
    Ghost(active_ip): Ghost<u32>,
)
    requires
        is_filtered(active_ip, done, old(out)@),
        usable_alternative(active_ip, c.local_ip),
    ensures
        is_filtered(active_ip, seq![c] + done, final(out)@),
{
    let ghost o = out@;
    let n = out.len();
    let mut k: usize = 0;
    while k < n && out[k].local_ip < c.local_ip
        invariant
            n == out@.len(),
            out@ == o,
            k <= n,
            forall|a: int| 0 <= a < k ==> out@[a].local_ip < c.local_ip,
        decreases n - k,
    {
        k = k + 1;
    }
    if k < n && out[k].local_ip == c.local_ip {
        if name_le_exec(&out[k].interface_name, &c.interface_name) {
            proof {
                lemma_keep_entry(active_ip, c, done, o, k as int);
            }
        } else {
            proof {
                lemma_name_le_total(o[k as int].interface_name@, c.interface_name@);
            }
            let ghost c2 = c;
            out.set(k, c);
            proof {
                lemma_replace_entry(active_ip, c2, done, o, k as int, out@);
            }
        }
    } else {
        let ghost c2 = c;
        out.insert(k, c);
        proof {
            lemma_insert_entry(active_ip, c2, done, o, k as int, out@);
        }
    }
}

pub proof fn lemma_name_le_reflexive(a: Seq<char>)
    ensures
        name_le(a, a),
    decreases a.len(),
{
    if a.len() > 0 {
        lemma_name_le_reflexive(a.drop_first());
    }
}

/// The candidate to recover on: the first of a filtered list, which has the
/// lowest address.
pub fn select_candidate(candidates: &Vec<PathCandidate>) -> (r: Option<&PathCandidate>)
    ensures
        candidates@.len() == 0 ==> r is None,
        candidates@.len() > 0 ==> r == Some(&candidates@[0]),
{
    if candidates.len() == 0 {
        None
    } else {
        Some(&candidates[0])
    }
}

} // verus!
