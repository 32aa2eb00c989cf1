//! What every scan does with the networks it read: mark the current
//! connection, order the list, and count access points per channel.
use vstd::prelude::*;
use crate::text::{
    ascii_lowercase, chars_of, eq_chars, lemma_lex_asymmetric, lemma_lex_irreflexive,
    lemma_lex_total, lemma_lex_transitive, lex_less, lex_lt, lower,
};
use crate::wifi::{
    models, to_lowercase, ChannelDistribution, ScanResult, unicode_lowercase, ConnectionModel,
    CurrentConnection, NetworkModel, WifiNetwork,
};

verus! {

// ---------------------------------------------------------------------------
// Which scanned network is the current connection
// ---------------------------------------------------------------------------

/// The first network at or after `k` whose BSSID equals `b` up to ASCII case.
pub open spec fn bssid_from(nets: Seq<NetworkModel>, b: Seq<char>, k: int) -> Option<int>
    decreases nets.len() - k,
{
    if k < 0 || k >= nets.len() {
        None
    } else if lower(nets[k].bssid) == lower(b) {
        Some(k)
    } else {
        bssid_from(nets, b, k + 1)
    }
}

/// The indices, in order, of the first `n` networks with SSID `ssid` (and,
/// when given, channel `channel`).
pub open spec fn ssid_positions(
    nets: Seq<NetworkModel>,
    ssid: Seq<char>,
    channel: Option<u16>,
    n: nat,
) -> Seq<int>
    decreases n,
{
    if n == 0 {
        seq![]
    } else {
        let p = ssid_positions(nets, ssid, channel, (n - 1) as nat);
        let m = nets[n - 1];
        if m.ssid == ssid && (match channel {
            Some(c) => m.channel == c,
            None => true,
        }) {
            p.push(n - 1)
        } else {
            p
        }
    }
}

pub open spec fn signal_distance(n: NetworkModel, signal: i32) -> int {
    let d = n.signal_dbm - signal;
    if d < 0 {
        -d
    } else {
        d
    }
}

/// The first candidate whose signal is closest to `signal`.
pub open spec fn first_closest(nets: Seq<NetworkModel>, cands: Seq<int>, signal: i32) -> Option<
    int,
>
    decreases cands.len(),
{
    if cands.len() == 0 {
        None
    } else {
        match first_closest(nets, cands.drop_last(), signal) {
            None => Some(cands.last()),
            Some(m) => if signal_distance(nets[cands.last()], signal) < signal_distance(
                nets[m],
                signal,
            ) {
                Some(cands.last())
            } else {
                Some(m)
            },
        }
    }
}

/// The scanned network that is the current connection. A known BSSID decides
/// alone, even when no scanned network carries it. Otherwise the candidates are
/// the networks with the current SSID, narrowed to the current channel when
/// that leaves any; with a known signal the first candidate closest to it is
/// chosen, without one only a single candidate is.
pub open spec fn connection_choice(nets: Seq<NetworkModel>, cur: Option<ConnectionModel>) -> Option<
    int,
> {
    match cur {
        None => None,
        Some(c) => match c.bssid {
            Some(b) => bssid_from(nets, b, 0),
            None => {
                let by_ssid = ssid_positions(nets, c.ssid, None, nets.len());
                let by_channel = match c.channel {
                    Some(ch) => ssid_positions(nets, c.ssid, Some(ch), nets.len()),
                    None => seq![],
                };
                let cands = if by_channel.len() == 0 {
                    by_ssid
                } else {
                    by_channel
                };
                match c.signal_dbm {
                    Some(s) => first_closest(nets, cands, s),
                    None => if cands.len() == 1 {
                        Some(cands[0])
                    } else {
                        None
                    },
                }
            },
        },
    }
}

/// The networks with exactly the chosen one marked connected.
pub open spec fn marked(nets: Seq<NetworkModel>, choice: Option<int>) -> Seq<NetworkModel> {
    Seq::new(nets.len(), |i: int| NetworkModel { is_connected: choice == Some(i), ..nets[i] })
}

pub open spec fn opt_current(c: Option<&CurrentConnection>) -> Option<ConnectionModel> {
    match c {
        Some(c) => Some(c@),
        None => None,
    }
}

fn eq_ignore_ascii_case(a: &String, b: &String) -> (r: bool)
    ensures
        r == (lower(a@) == lower(b@)),
{
    let la = ascii_lowercase(&chars_of(a.as_str()));
    let lb = ascii_lowercase(&chars_of(b.as_str()));
    eq_chars(&la, &lb)
}

fn find_bssid(networks: &Vec<WifiNetwork>, b: &String) -> (r: Option<usize>)
    ensures
        r matches Some(i) ==> i < networks.len() && bssid_from(models(networks@), b@, 0) == Some(
            i as int,
        ),
        r is None ==> bssid_from(models(networks@), b@, 0) is None,
{
    let ghost nets = models(networks@);
    let mut i: usize = 0;
    while i < networks.len()
        invariant
            nets == models(networks@),
            i <= networks.len(),
            bssid_from(nets, b@, 0) == bssid_from(nets, b@, i as int),
        decreases networks.len() - i,
    {
        assert(nets[i as int] == networks@[i as int]@);
        if eq_ignore_ascii_case(&networks[i].bssid, b) {
            return Some(i);
        }
        i += 1;
    }
    None
}

fn positions(networks: &Vec<WifiNetwork>, ssid: &String, channel: Option<u16>) -> (r: Vec<usize>)
    ensures
        r@.map_values(|i: usize| i as int) == ssid_positions(
            models(networks@),
            ssid@,
            channel,
            networks.len() as nat,
        ),
        forall|k: int| 0 <= k < r.len() ==> r@[k] < networks.len(),
{
    let ghost nets = models(networks@);
    let mut r: Vec<usize> = Vec::new();
    let mut i: usize = 0;
    assert(r@.map_values(|i: usize| i as int) =~= seq![]);
    while i < networks.len()
        invariant
            nets == models(networks@),
            i <= networks.len(),
            r@.map_values(|i: usize| i as int) == ssid_positions(nets, ssid@, channel, i as nat),
            forall|k: int| 0 <= k < r.len() ==> r@[k] < i,
        decreases networks.len() - i,
    {
        assert(nets[i as int] == networks@[i as int]@);
        let same_channel = match channel {
            Some(c) => networks[i].channel == c,
            None => true,
        };
        let ghost before = r@.map_values(|i: usize| i as int);
        if networks[i].ssid == *ssid && same_channel {
            r.push(i);
            assert(r@.map_values(|i: usize| i as int) =~= before.push(i as int));
        }
        i += 1;
    }
    r
}

fn distance(signal: i32, target: i32) -> (d: u64)
    ensures
        d as int == (if signal - target < 0 {
            target - signal
        } else {
            signal - target
        }),
{
    let diff: i64 = signal as i64 - target as i64;
    if diff < 0 {
        (0 - diff) as u64
    } else {
        diff as u64
    }
}

fn closest(networks: &Vec<WifiNetwork>, cands: &Vec<usize>, signal: i32) -> (r: Option<usize>)
    requires
        forall|k: int| 0 <= k < cands.len() ==> cands@[k] < networks.len(),
    ensures
        r matches Some(i) ==> first_closest(
            models(networks@),
            cands@.map_values(|i: usize| i as int),
            signal,
        ) == Some(i as int),
        r is None ==> first_closest(
            models(networks@),
            cands@.map_values(|i: usize| i as int),
            signal,
        ) is None,
        r matches Some(i) ==> i < networks.len(),
{
    let ghost nets = models(networks@);
    let ghost cs = cands@.map_values(|i: usize| i as int);
    let mut best: Option<usize> = None;
    let mut best_distance: u64 = 0;
    let mut k: usize = 0;
    assert(cs.subrange(0, 0) =~= seq![]);
    while k < cands.len()
        invariant
            nets == models(networks@),
            cs == cands@.map_values(|i: usize| i as int),
            forall|j: int| 0 <= j < cands.len() ==> cands@[j] < networks.len(),
            k <= cands.len(),
            match best {
                Some(b) => first_closest(nets, cs.subrange(0, k as int), signal) == Some(b as int)
                    && b < networks.len() && best_distance as int == signal_distance(
                    nets[b as int],
                    signal,
                ),
                None => first_closest(nets, cs.subrange(0, k as int), signal) is None && k == 0,
            },
        decreases cands.len() - k,
    {
        let idx = cands[k];
        assert(cs.subrange(0, k + 1).drop_last() =~= cs.subrange(0, k as int));
        assert(cs.subrange(0, k + 1).last() == idx as int);
        assert(nets[idx as int] == networks@[idx as int]@);
        let d = distance(networks[idx].signal_dbm, signal);
        match best {
            None => {
                best = Some(idx);
                best_distance = d;
            },
            Some(b) => {
                if d < best_distance {
                    best = Some(idx);
                    best_distance = d;
                }
            },
        }
        k += 1;
    }
    assert(cs.subrange(0, k as int) =~= cs);
    best
}

/// Which network to mark for a known current connection.
fn choose_connection(networks: &Vec<WifiNetwork>, current: &CurrentConnection) -> (r: Option<
    usize,
>)
    ensures
        r matches Some(i) ==> i < networks.len() && connection_choice(
            models(networks@),
            Some(current@),
        ) == Some(i as int),
        r is None ==> connection_choice(models(networks@), Some(current@)) is None,
{
    match &current.bssid {
        Some(b) => {
            return find_bssid(networks, b);
        },
        None => {},
    }
    let ssid_matches = positions(networks, &current.ssid, None);
    let channel_matches: Vec<usize> = match current.channel {
        Some(c) => positions(networks, &current.ssid, Some(c)),
        None => Vec::new(),
    };
    assert(channel_matches.len() == 0 ==> channel_matches@.map_values(|i: usize| i as int)
        =~= seq![]);
    let cands = if channel_matches.len() == 0 {
        ssid_matches
    } else {
        channel_matches
    };
    match current.signal_dbm {
        Some(s) => closest(networks, &cands, s),
        None => if cands.len() == 1 {
            Some(cands[0])
        } else {
            None
        },
    }
}

pub fn mark_current_connection_from(
    networks: &mut Vec<WifiNetwork>,
    current: Option<&CurrentConnection>,
)
    ensures
        models(final(networks)@) == marked(
            models(old(networks)@),
            connection_choice(models(old(networks)@), opt_current(current)),
        ),
{
    let choice: Option<usize> = match current {
        Some(c) => choose_connection(networks, c),
        None => None,
    };
    let ghost target = connection_choice(models(networks@), opt_current(current));
    assert(match choice {
        Some(i) => target == Some(i as int),
        None => target is None,
    });
    let ghost start = models(networks@);
    let mut i: usize = 0;
    while i < networks.len()
        invariant
            i <= networks.len(),
            networks@.len() == start.len(),
            match choice {
                Some(c) => target == Some(c as int),
                None => target is None,
            },
            forall|j: int|
                0 <= j < networks.len() ==> #[trigger] models(networks@)[j] == (if j < i {
                    marked(start, target)[j]
                } else {
                    start[j]
                }),
        decreases networks.len() - i,
    {
        let flag = match choice {
            Some(c) => c == i,
            None => false,
        };
        let ghost prev = models(networks@);
        networks[i].is_connected = flag;
        proof {
            assert(models(networks@) =~= prev.update(
                i as int,
                NetworkModel { is_connected: flag, ..prev[i as int] },
            ));
            assert forall|j: int| 0 <= j < networks.len() implies #[trigger] models(networks@)[j]
                == (if j < i + 1 {
                marked(start, target)[j]
            } else {
                start[j]
            }) by {
                assert(prev[j] == (if j < i {
                    marked(start, target)[j]
                } else {
                    start[j]
                }));
                if j == i {
                    assert(flag == (target == Some(j)));
                    assert(marked(start, target)[j] == NetworkModel {
                        is_connected: target == Some(j),
                        ..start[j]
                    });
                }
            }
        }
        i += 1;
    }
    assert(models(networks@) =~= marked(start, target));
}

// ---------------------------------------------------------------------------
// Mark the connection a scan already reports
// ---------------------------------------------------------------------------

/// The first network already marked connected.
pub open spec fn first_connected(nets: Seq<NetworkModel>, k: int) -> Option<int>
    decreases nets.len() - k,
{
    if k < 0 || k >= nets.len() {
        None
    } else if nets[k].is_connected {
        Some(k)
    } else {
        first_connected(nets, k + 1)
    }
}

/// When the scan itself marked networks connected, keeps only the first of
/// them marked and returns `true`; otherwise leaves the list as it is and
/// returns `false`, and the current connection has to be asked of the system
/// (`mark_current_connection_from`).
pub fn mark_current_connection(networks: &mut Vec<WifiNetwork>) -> (settled: bool)
    ensures
        settled == (first_connected(models(old(networks)@), 0) is Some),
        settled ==> models(final(networks)@) == marked(
            models(old(networks)@),
            first_connected(models(old(networks)@), 0),
        ),
        !settled ==> final(networks)@ == old(networks)@,
{
    let ghost start = models(networks@);
    let mut i: usize = 0;
    while i < networks.len() && !networks[i].is_connected
        invariant
            start == models(networks@),
            i <= networks.len(),
            first_connected(start, 0) == first_connected(start, i as int),
        decreases networks.len() - i,
    {
        assert(start[i as int] == networks@[i as int]@);
        i += 1;
    }
    if i == networks.len() {
        return false;
    }
    assert(start[i as int] == networks@[i as int]@);
    let first = i;
    let ghost target = first_connected(start, 0);
    assert(target == Some(first as int));
    let mut i: usize = 0;
    while i < networks.len()
        invariant
            i <= networks.len(),
            networks@.len() == start.len(),
            target == Some(first as int),
            forall|j: int|
                0 <= j < networks.len() ==> #[trigger] models(networks@)[j] == (if j < i {
                    marked(start, target)[j]
                } else {
                    start[j]
                }),
        decreases networks.len() - i,
    {
        let ghost prev = models(networks@);
        networks[i].is_connected = i == first;
        proof {
            assert(models(networks@) =~= prev.update(
                i as int,
                NetworkModel { is_connected: i == first, ..prev[i as int] },
            ));
            assert forall|j: int| 0 <= j < networks.len() implies #[trigger] models(networks@)[j]
                == (if j < i + 1 {
                marked(start, target)[j]
            } else {
                start[j]
            }) by {
                assert(prev[j] == (if j < i {
                    marked(start, target)[j]
                } else {
                    start[j]
                }));
            }
        }
        i += 1;
    }
    assert(models(networks@) =~= marked(start, target));
    true
}

// ---------------------------------------------------------------------------
// Laws of the marking
// ---------------------------------------------------------------------------

/// The networks after marking the current connection.
pub open spec fn after_marking(nets: Seq<NetworkModel>, cur: Option<ConnectionModel>) -> Seq<
    NetworkModel,
> {
    marked(nets, connection_choice(nets, cur))
}

/// `n` is `m` but for the connected flag.
pub open spec fn same_but_connection(n: NetworkModel, m: NetworkModel) -> bool {
    n == (NetworkModel { is_connected: n.is_connected, ..m })
}

/// Marking the current connection marks at most one network and changes
/// nothing but the connected flags.
pub proof fn law_at_most_one_network_is_connected(
    nets: Seq<NetworkModel>,
    cur: Option<ConnectionModel>,
)
    ensures
        after_marking(nets, cur).len() == nets.len(),
        forall|i: int, j: int|
            0 <= i < j < nets.len() ==> !(#[trigger] after_marking(nets, cur)[i].is_connected
                && #[trigger] after_marking(nets, cur)[j].is_connected),
        forall|i: int|
            0 <= i < nets.len() ==> same_but_connection(#[trigger] after_marking(nets, cur)[i], nets[i]),
{
}

/// Whether a network carries the BSSID `b`, up to ASCII case.
pub open spec fn carries_bssid(n: NetworkModel, b: Seq<char>) -> bool {
    lower(n.bssid) == lower(b)
}

proof fn lemma_bssid_from(nets: Seq<NetworkModel>, b: Seq<char>, k: int)
    requires
        0 <= k,
    ensures
        (bssid_from(nets, b, k) matches Some(j) && k <= j < nets.len() && carries_bssid(nets[j], b))
            || (bssid_from(nets, b, k) == None::<int> && forall|m: int|
            k <= m < nets.len() ==> !carries_bssid(#[trigger] nets[m], b)),
    decreases nets.len() - k,
{
    if k < nets.len() {
        lemma_bssid_from(nets, b, k + 1);
    }
}

/// A known BSSID is authoritative: the network marked connected carries that
/// BSSID (up to ASCII case); one is marked whenever the scan saw it, and none
/// when the scan missed it, however well another network matches the SSID,
/// channel or signal.
pub proof fn law_known_bssid_is_authoritative(
    nets: Seq<NetworkModel>,
    cur: ConnectionModel,
    b: Seq<char>,
)
    requires
        cur.bssid == Some(b),
    ensures
        forall|i: int|
            0 <= i < nets.len() && (#[trigger] after_marking(nets, Some(cur))[i]).is_connected
                ==> carries_bssid(nets[i], b),
        (exists|i: int| 0 <= i < nets.len() && carries_bssid(#[trigger] nets[i], b)) ==> (exists|
            i: int,
        | 0 <= i < nets.len() && (#[trigger] after_marking(nets, Some(cur))[i]).is_connected),
        (forall|i: int| 0 <= i < nets.len() ==> !carries_bssid(#[trigger] nets[i], b)) ==> (forall|
            i: int,
        | 0 <= i < nets.len() ==> !(#[trigger] after_marking(nets, Some(cur))[i]).is_connected),
{
    lemma_bssid_from(nets, b, 0);
    let m = after_marking(nets, Some(cur));
    match bssid_from(nets, b, 0) {
        Some(j) => {
            assert(m[j].is_connected);
        },
        None => {},
    }
}

// ---------------------------------------------------------------------------
// Law of the channel when the BSSID is unknown
// ---------------------------------------------------------------------------

proof fn lemma_ssid_positions(nets: Seq<NetworkModel>, ssid: Seq<char>, channel: Option<u16>, n: nat)
    requires
        n <= nets.len(),
    ensures
        forall|k: int|
            0 <= k < ssid_positions(nets, ssid, channel, n).len() ==> {
                let i = #[trigger] ssid_positions(nets, ssid, channel, n)[k];
                0 <= i < n && nets[i].ssid == ssid && (channel matches Some(c) ==> nets[i].channel
                    == c)
            },
        (exists|i: int|
            0 <= i < n && (#[trigger] nets[i]).ssid == ssid && (channel matches Some(c)
                ==> nets[i].channel == c)) ==> ssid_positions(nets, ssid, channel, n).len() > 0,
    decreases n,
{
    if n > 0 {
        lemma_ssid_positions(nets, ssid, channel, (n - 1) as nat);
        let p = ssid_positions(nets, ssid, channel, (n - 1) as nat);
        assert forall|k: int| 0 <= k < ssid_positions(nets, ssid, channel, n).len() implies {
            let i = #[trigger] ssid_positions(nets, ssid, channel, n)[k];
            0 <= i < n && nets[i].ssid == ssid && (channel matches Some(c) ==> nets[i].channel == c)
        } by {
            if k < p.len() {
                assert(ssid_positions(nets, ssid, channel, n)[k] == p[k]);
            }
        }
        if exists|i: int|
            0 <= i < n && (#[trigger] nets[i]).ssid == ssid && (channel matches Some(c)
                ==> nets[i].channel == c) {
            let i = choose|i: int|
                0 <= i < n && (#[trigger] nets[i]).ssid == ssid && (channel matches Some(c)
                    ==> nets[i].channel == c);
            if i < n - 1 {
                assert(0 <= i < n - 1 && nets[i].ssid == ssid);
            }
        }
    }
}

proof fn lemma_first_closest(nets: Seq<NetworkModel>, cands: Seq<int>, signal: i32)
    ensures
        first_closest(nets, cands, signal) matches Some(k) ==> cands.contains(k),
        cands.len() > 0 ==> first_closest(nets, cands, signal) is Some,
    decreases cands.len(),
{
    if cands.len() > 0 {
        lemma_first_closest(nets, cands.drop_last(), signal);
        match first_closest(nets, cands.drop_last(), signal) {
            Some(m) => {
                let j = choose|j: int| 0 <= j < cands.drop_last().len() && cands.drop_last()[j] == m;
                assert(cands[j] == m);
            },
            None => {},
        }
        assert(cands[cands.len() - 1] == cands.last());
    }
}

/// Without a known BSSID, the current channel narrows the choice: when some
/// scanned network has the current SSID on the current channel, the network
/// marked connected has that SSID and is on that channel, and with a known
/// signal one is always marked.
pub proof fn law_current_channel_narrows_the_choice(
    nets: Seq<NetworkModel>,
    cur: ConnectionModel,
    channel: u16,
)
    requires
        cur.bssid is None,
        cur.channel == Some(channel),
        exists|i: int| 0 <= i < nets.len() && (#[trigger] nets[i]).ssid == cur.ssid && nets[i].channel == channel,
    ensures
        forall|i: int|
            0 <= i < nets.len() && (#[trigger] after_marking(nets, Some(cur))[i]).is_connected
                ==> nets[i].ssid == cur.ssid && nets[i].channel == channel,
        cur.signal_dbm is Some ==> exists|i: int|
            0 <= i < nets.len() && (#[trigger] after_marking(nets, Some(cur))[i]).is_connected,
{
    let by_channel = ssid_positions(nets, cur.ssid, Some(channel), nets.len());
    lemma_ssid_positions(nets, cur.ssid, Some(channel), nets.len());
    let i0 = choose|i: int| 0 <= i < nets.len() && (#[trigger] nets[i]).ssid == cur.ssid && nets[i].channel == channel;
    assert(exists|i: int|
        0 <= i < nets.len() && (#[trigger] nets[i]).ssid == cur.ssid && (Some(channel) matches Some(c)
            ==> nets[i].channel == c));
    assert(by_channel.len() > 0);
    let choice = connection_choice(nets, Some(cur));
    match cur.signal_dbm {
        Some(sig) => {
            lemma_first_closest(nets, by_channel, sig);
            let k = choice->0;
            let j = choose|j: int| 0 <= j < by_channel.len() && by_channel[j] == k;
            assert(by_channel[j] == k);
            assert(after_marking(nets, Some(cur))[k].is_connected);
        },
        None => {
            if by_channel.len() == 1 {
                assert(by_channel[0] == by_channel[0]);
            }
        },
    }
    assert forall|i: int|
        0 <= i < nets.len() && (#[trigger] after_marking(nets, Some(cur))[i]).is_connected
            implies nets[i].ssid == cur.ssid && nets[i].channel == channel by {
        assert(choice == Some(i));
        match cur.signal_dbm {
            Some(sig) => {
                lemma_first_closest(nets, by_channel, sig);
                let j = choose|j: int| 0 <= j < by_channel.len() && by_channel[j] == i;
                assert(by_channel[j] == i);
            },
            None => {
                assert(by_channel[0] == i);
            },
        }
    }
}

// ---------------------------------------------------------------------------
// Order of the list
// ---------------------------------------------------------------------------

/// `a` is listed strictly before `b`: a stronger signal first, then by the
/// Unicode lower case of the SSID.
pub open spec fn listed_before(a: NetworkModel, b: NetworkModel) -> bool {
    a.signal_dbm > b.signal_dbm || (a.signal_dbm == b.signal_dbm && lex_lt(
        unicode_lowercase(a.ssid),
        unicode_lowercase(b.ssid),
    ))
}

/// Neither is listed before the other.
pub open spec fn same_rank(a: NetworkModel, b: NetworkModel) -> bool {
    !listed_before(a, b) && !listed_before(b, a)
}

pub open spec fn in_list_order(s: Seq<NetworkModel>) -> bool {
    forall|k: int, l: int| 0 <= k < l < s.len() ==> !listed_before(s[l], s[k])
}

/// `p` lists distinct indices below `n`, `n` of them.
pub open spec fn is_permutation(p: Seq<int>, n: nat) -> bool {
    &&& p.len() == n
    &&& forall|k: int| 0 <= k < p.len() ==> 0 <= #[trigger] p[k] < n
    &&& forall|k: int, l: int| 0 <= k < l < p.len() ==> p[k] != p[l]
}

/// Networks of the same rank keep the order of their origins `p`.
pub open spec fn keeps_ties(s: Seq<NetworkModel>, p: Seq<int>) -> bool {
    forall|k: int, l: int| 0 <= k < l < s.len() && same_rank(s[k], s[l]) ==> p[k] < p[l]
}

/// `p` says where each entry of `new` came from in `old`.
pub open spec fn drawn_from(old: Seq<NetworkModel>, new: Seq<NetworkModel>, p: Seq<int>) -> bool {
    &&& new.len() == p.len()
    &&& forall|k: int| 0 <= k < new.len() ==> new[k] == old[#[trigger] p[k]]
}

/// `new` is `old` sorted stably into list order.
pub open spec fn stably_sorted(old: Seq<NetworkModel>, new: Seq<NetworkModel>) -> bool {
    exists|p: Seq<int>|
        is_permutation(p, old.len()) && drawn_from(old, new, p) && in_list_order(new)
            && keeps_ties(new, p)
}

pub proof fn lemma_listed_before_order(a: NetworkModel, b: NetworkModel, c: NetworkModel)
    ensures
        !listed_before(a, a),
        !(listed_before(a, b) && listed_before(b, a)),
        listed_before(a, b) && listed_before(b, c) ==> listed_before(a, c),
        same_rank(a, b) ==> (listed_before(a, c) == listed_before(b, c) && listed_before(c, a)
            == listed_before(c, b)),
{
    let la = unicode_lowercase(a.ssid);
    let lb = unicode_lowercase(b.ssid);
    let lc = unicode_lowercase(c.ssid);
    lemma_lex_irreflexive(la);
    lemma_lex_asymmetric(la, lb);
    if lex_lt(la, lb) && lex_lt(lb, lc) {
        lemma_lex_transitive(la, lb, lc);
    }
    lemma_lex_total(la, lb);
}

/// Inserting `x` at the first place where it ranks before the entry keeps a
/// sorted list sorted and its ties in order.
proof fn lemma_insert_in_order(
    out: Seq<NetworkModel>,
    p: Seq<int>,
    x: NetworkModel,
    pos: int,
    i: int,
)
    requires
        in_list_order(out),
        keeps_ties(out, p),
        p.len() == out.len(),
        0 <= pos <= out.len(),
        forall|k: int| 0 <= k < pos ==> !listed_before(x, #[trigger] out[k]),
        pos < out.len() ==> listed_before(x, out[pos]),
        forall|k: int| 0 <= k < p.len() ==> #[trigger] p[k] < i,
    ensures
        in_list_order(out.insert(pos, x)),
        keeps_ties(out.insert(pos, x), p.insert(pos, i)),
{
    let o2 = out.insert(pos, x);
    let p2 = p.insert(pos, i);
    out.insert_ensures(pos, x);
    p.insert_ensures(pos, i);
    assert forall|k: int, l: int| 0 <= k < l < o2.len() implies !listed_before(o2[l], o2[k]) by {
        if l < pos {
        } else if l == pos {
        } else if k > pos {
            assert(o2[l] == out[l - 1] && o2[k] == out[k - 1]);
        } else if k == pos {
            assert(o2[l] == out[l - 1]);
            lemma_listed_before_order(out[l - 1], x, out[pos]);
            lemma_listed_before_order(out[pos], out[pos], out[pos]);
        } else {
            assert(o2[l] == out[l - 1]);
        }
    }
    assert forall|k: int, l: int|
        0 <= k < l < o2.len() && same_rank(o2[k], o2[l]) implies p2[k] < p2[l] by {
        if l < pos {
        } else if l == pos {
            assert(p2[l] == i);
        } else if k > pos {
            assert(o2[l] == out[l - 1] && o2[k] == out[k - 1]);
            assert(p2[l] == p[l - 1] && p2[k] == p[k - 1]);
        } else if k == pos {
            assert(o2[l] == out[l - 1]);
            lemma_listed_before_order(x, out[l - 1], out[pos]);
            lemma_listed_before_order(out[pos], out[pos], out[pos]);
        } else {
            assert(o2[l] == out[l - 1]);
            assert(p2[l] == p[l - 1]);
        }
    }
}

fn ranks_before(a: &WifiNetwork, a_key: &Vec<char>, b: &WifiNetwork, b_key: &Vec<char>) -> (r:
    bool)
    requires
        a_key@ == unicode_lowercase(a.ssid@),
        b_key@ == unicode_lowercase(b.ssid@),
    ensures
        r == listed_before(a@, b@),
{
    a.signal_dbm > b.signal_dbm || (a.signal_dbm == b.signal_dbm && lex_less(a_key, b_key))
}

/// Sorts the networks stably: strongest signal first, then by the Unicode lower
/// case of the SSID.
pub fn sort_networks(networks: &mut Vec<WifiNetwork>)
    ensures
        stably_sorted(models(old(networks)@), models(final(networks)@)),
{
    let ghost orig = models(networks@);
    let mut rest: Vec<WifiNetwork> = Vec::new();
    std::mem::swap(networks, &mut rest);
    let mut out: Vec<WifiNetwork> = Vec::new();
    let mut keys: Vec<Vec<char>> = Vec::new();
    let ghost mut p: Seq<int> = seq![];
    let ghost mut done: int = 0;
    assert(models(rest@) =~= orig.subrange(0, orig.len() as int));
    while rest.len() > 0
        invariant
            0 <= done <= orig.len(),
            rest.len() + done == orig.len(),
            models(rest@) == orig.subrange(done, orig.len() as int),
            keys.len() == out.len(),
            forall|k: int|
                0 <= k < out.len() ==> (#[trigger] keys@[k])@ == unicode_lowercase(out@[k].ssid@),
            p.len() == out.len(),
            out.len() == done,
            forall|k: int| 0 <= k < p.len() ==> 0 <= #[trigger] p[k] < done,
            forall|k: int, l: int| 0 <= k < l < p.len() ==> p[k] != p[l],
            drawn_from(orig, models(out@), p),
            in_list_order(models(out@)),
            keeps_ties(models(out@), p),
        decreases rest.len(),
    {
        let ghost rest_before = models(rest@);
        let ghost rest_vec = rest@;
        let x = rest.remove(0);
        assert(rest@ =~= rest_vec.subrange(1, rest_vec.len() as int));
        assert(models(rest@) =~= rest_before.subrange(1, rest_before.len() as int));
        assert(models(rest@) =~= orig.subrange(done + 1, orig.len() as int));
        assert(x@ == rest_before[0]);
        assert(x@ == orig[done]);
        let key = chars_of(to_lowercase(x.ssid.as_str()).as_str());
        let mut pos: usize = 0;
        while pos < out.len() && !ranks_before(&x, &key, &out[pos], &keys[pos])
            invariant
                pos <= out.len(),
                keys.len() == out.len(),
                key@ == unicode_lowercase(x.ssid@),
                forall|k: int|
                    0 <= k < out.len() ==> (#[trigger] keys@[k])@ == unicode_lowercase(
                        out@[k].ssid@,
                    ),
                forall|k: int| 0 <= k < pos ==> !listed_before(x@, #[trigger] models(out@)[k]),
            decreases out.len() - pos,
        {
            assert(models(out@)[pos as int] == out@[pos as int]@);
            pos += 1;
        }
        proof {
            if pos < out.len() {
                assert(models(out@)[pos as int] == out@[pos as int]@);
            }
            lemma_insert_in_order(models(out@), p, x@, pos as int, done);
        }
        let ghost out_before = models(out@);
        let ghost keys_before = keys@;
        let ghost x_model = x@;
        out.insert(pos, x);
        keys.insert(pos, key);
        proof {
            assert(models(out@) =~= out_before.insert(pos as int, x_model));
            out_before.insert_ensures(pos as int, x_model);
            keys_before.insert_ensures(pos as int, key);
            let p_before = p;
            p = p.insert(pos as int, done);
            p_before.insert_ensures(pos as int, done);
            assert forall|k: int| 0 <= k < out.len() implies (#[trigger] keys@[k])@
                == unicode_lowercase(out@[k].ssid@) by {
                assert(out@[k]@ == models(out@)[k]);
                if k > pos {
                    assert(keys@[k] == keys_before[k - 1]);
                }
            }
            assert forall|k: int, l: int| 0 <= k < l < p.len() implies p[k] != p[l] by {
                if k < pos && l > pos {
                    assert(p[l] == p_before[l - 1]);
                } else if k > pos {
                    assert(p[l] == p_before[l - 1] && p[k] == p_before[k - 1]);
                } else if k == pos {
                    assert(p[l] == p_before[l - 1]);
                }
            }
            assert forall|k: int| 0 <= k < models(out@).len() implies models(out@)[k]
                == orig[#[trigger] p[k]] by {
                if k > pos {
                    assert(p[k] == p_before[k - 1]);
                }
            }
            assert forall|k: int| 0 <= k < p.len() implies 0 <= #[trigger] p[k] < done + 1 by {
                if k > pos {
                    assert(p[k] == p_before[k - 1]);
                }
            }
            done = done + 1;
        }
    }
    proof {
        assert(done == orig.len());
        assert(is_permutation(p, orig.len()));
    }
    *networks = out;
}

// ---------------------------------------------------------------------------
// Channel distribution
// ---------------------------------------------------------------------------

pub struct SlotModel {
    pub band: Seq<char>,
    pub channel: u16,
    pub network_count: usize,
}

impl View for ChannelDistribution {
    type V = SlotModel;

    open spec fn view(&self) -> SlotModel {
        SlotModel { band: self.band@, channel: self.channel, network_count: self.network_count }
    }
}

pub open spec fn slots(v: Seq<ChannelDistribution>) -> Seq<SlotModel> {
    v.map_values(|d: ChannelDistribution| d@)
}

/// Order of (band, channel) slots: by band name, then by channel number.
pub open spec fn slot_before(b1: Seq<char>, c1: u16, b2: Seq<char>, c2: u16) -> bool {
    lex_lt(b1, b2) || (b1 == b2 && c1 < c2)
}

pub open spec fn on_slot(n: NetworkModel, band: Seq<char>, channel: u16) -> bool {
    n.channel != 0 && n.band == band && n.channel == channel
}

/// How many of the first `n` networks are on the slot.
pub open spec fn slot_count(nets: Seq<NetworkModel>, band: Seq<char>, channel: u16, n: nat) -> nat
    decreases n,
{
    if n == 0 {
        0
    } else {
        slot_count(nets, band, channel, (n - 1) as nat) + if on_slot(nets[n - 1], band, channel) {
            1nat
        } else {
            0nat
        }
    }
}

/// The distribution of the first `n` networks: one entry per (band, channel)
/// that a network with a known channel uses, in slot order, with the number of
/// such networks.
pub open spec fn distribution_of(nets: Seq<NetworkModel>, d: Seq<SlotModel>, n: nat) -> bool {
    &&& forall|k: int, l: int|
        0 <= k < l < d.len() ==> slot_before(d[k].band, d[k].channel, d[l].band, d[l].channel)
    &&& forall|k: int|
        0 <= k < d.len() ==> (#[trigger] d[k]).channel != 0 && d[k].network_count == slot_count(
            nets,
            d[k].band,
            d[k].channel,
            n,
        ) && d[k].network_count > 0
    &&& forall|j: int|
        0 <= j < n && (#[trigger] nets[j]).channel != 0 ==> exists|k: int|
            0 <= k < d.len() && d[k].band == nets[j].band && d[k].channel == nets[j].channel
}

pub proof fn lemma_slot_count_bounds(nets: Seq<NetworkModel>, band: Seq<char>, channel: u16, n: nat)
    requires
        n <= nets.len(),
    ensures
        slot_count(nets, band, channel, n) <= n,
        slot_count(nets, band, channel, n) > 0 ==> exists|j: int|
            0 <= j < n && on_slot(#[trigger] nets[j], band, channel),
    decreases n,
{
    if n > 0 {
        lemma_slot_count_bounds(nets, band, channel, (n - 1) as nat);
    }
}

pub proof fn lemma_slot_order(b1: Seq<char>, c1: u16, b2: Seq<char>, c2: u16, b3: Seq<char>, c3: u16)
    ensures
        !slot_before(b1, c1, b1, c1),
        slot_before(b1, c1, b2, c2) && slot_before(b2, c2, b3, c3) ==> slot_before(b1, c1, b3, c3),
        !slot_before(b1, c1, b2, c2) && !(b1 == b2 && c1 == c2) ==> slot_before(b2, c2, b1, c1),
{
    lemma_lex_irreflexive(b1);
    if lex_lt(b1, b2) && lex_lt(b2, b3) {
        lemma_lex_transitive(b1, b2, b3);
    }
    lemma_lex_total(b1, b2);
}

fn slot_precedes(d: &ChannelDistribution, band: &Vec<char>, channel: u16) -> (r: bool)
    ensures
        r == slot_before(d.band@, d.channel, band@, channel),
{
    let b = chars_of(d.band.as_str());
    lex_less(&b, band) || (eq_chars(&b, band) && d.channel < channel)
}

#[verifier::rlimit(30)]
pub fn build_channel_distribution(networks: &Vec<WifiNetwork>) -> (r: Vec<ChannelDistribution>)
    ensures
        distribution_of(models(networks@), slots(r@), networks.len() as nat),
{
    let ghost nets = models(networks@);
    let mut out: Vec<ChannelDistribution> = Vec::new();
    let mut i: usize = 0;
    while i < networks.len()
        invariant
            nets == models(networks@),
            i <= networks.len(),
            distribution_of(nets, slots(out@), i as nat),
        decreases networks.len() - i,
    {
        assert(nets[i as int] == networks@[i as int]@);
        let n = &networks[i];
        if n.channel != 0 {
            let band = chars_of(n.band.as_str());
            let mut k: usize = 0;
            while k < out.len() && slot_precedes(&out[k], &band, n.channel)
                invariant
                    k <= out.len(),
                    band@ == n.band@,
                    forall|kk: int|
                        0 <= kk < k ==> slot_before(
                            (#[trigger] slots(out@)[kk]).band,
                            slots(out@)[kk].channel,
                            n.band@,
                            n.channel,
                        ),
                decreases out.len() - k,
            {
                assert(slots(out@)[k as int] == out@[k as int]@);
                k += 1;
            }
            proof {
                lemma_slot_count_bounds(nets, n.band@, n.channel, i as nat);
                lemma_slot_count_bounds(nets, n.band@, n.channel, (i + 1) as nat);
            }
            let ghost before = slots(out@);
            if k < out.len() && out[k].channel == n.channel && out[k].band == n.band {
                assert(slots(out@)[k as int] == out@[k as int]@);
                assert(out[k as int].network_count <= i);
                out[k].network_count = out[k].network_count + 1;
                proof {
                    assert(slots(out@) =~= before.update(
                        k as int,
                        SlotModel { network_count: (before[k as int].network_count + 1) as usize, ..before[k as int] },
                    ));
                    assert forall|kk: int| 0 <= kk < slots(out@).len() implies (#[trigger] slots(
                        out@,
                    )[kk]).channel != 0 && slots(out@)[kk].network_count == slot_count(
                        nets,
                        slots(out@)[kk].band,
                        slots(out@)[kk].channel,
                        (i + 1) as nat,
                    ) && slots(out@)[kk].network_count > 0 by {
                        if kk != k {
                            if kk < k {
                                lemma_slot_order(before[kk].band, before[kk].channel, before[k as int].band, before[k as int].channel, before[kk].band, before[kk].channel);
                            } else {
                                lemma_slot_order(before[k as int].band, before[k as int].channel, before[kk].band, before[kk].channel, before[kk].band, before[kk].channel);
                            }
                            assert(!on_slot(nets[i as int], before[kk].band, before[kk].channel));
                        }
                    }
                    assert forall|j: int|
                        0 <= j < i + 1 && (#[trigger] nets[j]).channel != 0 implies exists|kk: int|
                        0 <= kk < slots(out@).len() && slots(out@)[kk].band == nets[j].band
                            && slots(out@)[kk].channel == nets[j].channel by {
                        if j == i {
                            assert(slots(out@)[k as int].band == nets[j].band);
                        } else {
                            let kk = choose|kk: int|
                                0 <= kk < before.len() && before[kk].band == nets[j].band
                                    && before[kk].channel == nets[j].channel;
                            assert(slots(out@)[kk].band == nets[j].band);
                        }
                    }
                }
            } else {
                let entry = ChannelDistribution {
                    band: n.band.clone(),
                    channel: n.channel,
                    network_count: 1,
                };
                proof {
                    if k < out.len() {
                        assert(slots(out@)[k as int] == out@[k as int]@);
                        lemma_slot_order(n.band@, n.channel, before[k as int].band, before[k as int].channel, n.band@, n.channel);
                    }
                    assert forall|kk: int| 0 <= kk < before.len() implies !(before[kk].band == n.band@
                        && before[kk].channel == n.channel) by {
                        if kk < k {
                            lemma_slot_order(n.band@, n.channel, n.band@, n.channel, n.band@, n.channel);
                        } else if kk > k {
                            lemma_slot_order(n.band@, n.channel, before[k as int].band, before[k as int].channel, before[kk].band, before[kk].channel);
                            lemma_slot_order(n.band@, n.channel, n.band@, n.channel, n.band@, n.channel);
                        }
                    }
                    if slot_count(nets, n.band@, n.channel, i as nat) > 0 {
                        let j = choose|j: int| 0 <= j < i && on_slot(#[trigger] nets[j], n.band@, n.channel);
                        assert(nets[j].channel != 0);
                    }
                }
                out.insert(k, entry);
                proof {
                    assert(slots(out@) =~= before.insert(k as int, entry@));
                    before.insert_ensures(k as int, entry@);
                    let after = slots(out@);
                    assert forall|a: int, b: int| 0 <= a < b < after.len() implies slot_before(
                        after[a].band,
                        after[a].channel,
                        after[b].band,
                        after[b].channel,
                    ) by {
                        if b < k {
                        } else if b == k {
                        } else if a > k {
                            assert(after[a] == before[a - 1] && after[b] == before[b - 1]);
                        } else if a == k {
                            assert(after[b] == before[b - 1]);
                            if b - 1 > k {
                                lemma_slot_order(n.band@, n.channel, before[k as int].band, before[k as int].channel, before[b - 1].band, before[b - 1].channel);
                            }
                        } else {
                            assert(after[b] == before[b - 1]);
                            lemma_slot_order(after[a].band, after[a].channel, n.band@, n.channel, before[b - 1].band, before[b - 1].channel);
                        }
                    }
                    assert forall|kk: int| 0 <= kk < after.len() implies (#[trigger] after[kk]).channel
                        != 0 && after[kk].network_count == slot_count(
                        nets,
                        after[kk].band,
                        after[kk].channel,
                        (i + 1) as nat,
                    ) && after[kk].network_count > 0 by {
                        if kk < k {
                            assert(!on_slot(nets[i as int], before[kk].band, before[kk].channel));
                        } else if kk > k {
                            assert(after[kk] == before[kk - 1]);
                            assert(!on_slot(nets[i as int], before[kk - 1].band, before[kk - 1].channel));
                        }
                    }
                    assert forall|j: int|
                        0 <= j < i + 1 && (#[trigger] nets[j]).channel != 0 implies exists|kk: int|
                        0 <= kk < after.len() && after[kk].band == nets[j].band
                            && after[kk].channel == nets[j].channel by {
                        if j == i {
                            assert(after[k as int].band == nets[j].band);
                        } else {
                            let kk = choose|kk: int|
                                0 <= kk < before.len() && before[kk].band == nets[j].band
                                    && before[kk].channel == nets[j].channel;
                            if kk < k {
                                assert(after[kk] == before[kk]);
                            } else {
                                assert(after[kk + 1] == before[kk]);
                            }
                        }
                    }
                }
            }
        } else {
            proof {
                let d = slots(out@);
                assert forall|kk: int| 0 <= kk < d.len() implies (#[trigger] d[kk]).channel != 0
                    && d[kk].network_count == slot_count(nets, d[kk].band, d[kk].channel, (i + 1) as nat)
                    && d[kk].network_count > 0 by {}
            }
        }
        i += 1;
    }
    out
}

// ---------------------------------------------------------------------------
// Law of the distribution
// ---------------------------------------------------------------------------

/// The total of the counts of the first `k` entries.
pub open spec fn counted(d: Seq<SlotModel>, k: nat) -> nat
    decreases k,
{
    if k == 0 {
        0
    } else {
        counted(d, (k - 1) as nat) + d[k - 1].network_count as nat
    }
}

/// How many of the first `n` networks have a known channel.
pub open spec fn with_channel(nets: Seq<NetworkModel>, n: nat) -> nat
    decreases n,
{
    if n == 0 {
        0
    } else {
        with_channel(nets, (n - 1) as nat) + if nets[n - 1].channel != 0 {
            1nat
        } else {
            0nat
        }
    }
}

/// How many of the first `k` entries the network is on.
spec fn hits(d: Seq<SlotModel>, k: nat, x: NetworkModel) -> nat
    decreases k,
{
    if k == 0 {
        0
    } else {
        hits(d, (k - 1) as nat, x) + if on_slot(x, d[k - 1].band, d[k - 1].channel) {
            1nat
        } else {
            0nat
        }
    }
}

/// The first `m` networks counted on the first `k` entries.
spec fn slot_total(nets: Seq<NetworkModel>, d: Seq<SlotModel>, k: nat, m: nat) -> nat
    decreases k,
{
    if k == 0 {
        0
    } else {
        slot_total(nets, d, (k - 1) as nat, m) + slot_count(nets, d[k - 1].band, d[k - 1].channel, m)
    }
}

proof fn lemma_slot_total_step(nets: Seq<NetworkModel>, d: Seq<SlotModel>, k: nat, m: nat)
    requires
        m > 0,
    ensures
        slot_total(nets, d, k, m) == slot_total(nets, d, k, (m - 1) as nat) + hits(d, k, nets[m - 1]),
    decreases k,
{
    if k > 0 {
        lemma_slot_total_step(nets, d, (k - 1) as nat, m);
    }
}

proof fn lemma_hits_at_most_one(d: Seq<SlotModel>, k: nat, x: NetworkModel)
    requires
        k <= d.len(),
        forall|a: int, b: int|
            0 <= a < b < d.len() ==> slot_before(d[a].band, d[a].channel, d[b].band, d[b].channel),
    ensures
        hits(d, k, x) == (if exists|i: int| 0 <= i < k && on_slot(x, #[trigger] d[i].band, d[i].channel) {
            1nat
        } else {
            0nat
        }),
    decreases k,
{
    if k > 0 {
        lemma_hits_at_most_one(d, (k - 1) as nat, x);
        let last = d[k - 1];
        if on_slot(x, last.band, last.channel) {
            assert forall|i: int| 0 <= i < k - 1 implies !on_slot(x, #[trigger] d[i].band, d[i].channel) by {
                lemma_slot_order(d[i].band, d[i].channel, d[i].band, d[i].channel, d[i].band, d[i].channel);
                assert(slot_before(d[i].band, d[i].channel, last.band, last.channel));
            }
        } else {
            if exists|i: int| 0 <= i < k && on_slot(x, #[trigger] d[i].band, d[i].channel) {
                let i = choose|i: int| 0 <= i < k && on_slot(x, #[trigger] d[i].band, d[i].channel);
                assert(i < k - 1);
            }
        }
    }
}

proof fn lemma_slot_total(nets: Seq<NetworkModel>, d: Seq<SlotModel>, m: nat, n: nat)
    requires
        m <= n <= nets.len(),
        distribution_of(nets, d, n),
    ensures
        slot_total(nets, d, d.len(), m) == with_channel(nets, m),
    decreases m,
{
    if m == 0 {
        lemma_slot_total_zero(nets, d, d.len());
    } else {
        lemma_slot_total(nets, d, (m - 1) as nat, n);
        lemma_slot_total_step(nets, d, d.len(), m);
        let x = nets[m - 1];
        lemma_hits_at_most_one(d, d.len(), x);
        if x.channel != 0 {
            assert(nets[m - 1].channel != 0);
            let k = choose|k: int|
                0 <= k < d.len() && d[k].band == nets[m - 1].band && d[k].channel == nets[m - 1].channel;
            assert(on_slot(x, d[k].band, d[k].channel));
        }
    }
}

proof fn lemma_slot_total_zero(nets: Seq<NetworkModel>, d: Seq<SlotModel>, k: nat)
    ensures
        slot_total(nets, d, k, 0) == 0,
    decreases k,
{
    if k > 0 {
        lemma_slot_total_zero(nets, d, (k - 1) as nat);
    }
}

proof fn lemma_counted(nets: Seq<NetworkModel>, d: Seq<SlotModel>, k: nat, n: nat)
    requires
        k <= d.len(),
        distribution_of(nets, d, n),
    ensures
        counted(d, k) == slot_total(nets, d, k, n),
    decreases k,
{
    if k > 0 {
        lemma_counted(nets, d, (k - 1) as nat, n);
        assert(d[k - 1].network_count == slot_count(nets, d[k - 1].band, d[k - 1].channel, n));
    }
}

/// The distribution counts every network with a known channel exactly once:
/// its counts add up to the number of such networks.
pub proof fn law_distribution_counts_every_network(
    nets: Seq<NetworkModel>,
    d: Seq<SlotModel>,
    n: nat,
)
    requires
        n <= nets.len(),
        distribution_of(nets, d, n),
    ensures
        counted(d, d.len()) == with_channel(nets, n),
{
    lemma_counted(nets, d, d.len(), n);
    lemma_slot_total(nets, d, n, n);
}

/// Slots in strictly increasing slot order.
pub open spec fn slots_sorted(d: Seq<SlotModel>) -> bool {
    forall|a: int, b: int|
        0 <= a < b < d.len() ==> slot_before(d[a].band, d[a].channel, d[b].band, d[b].channel)
}

/// `d` has an entry for the slot.
#[verifier::opaque]
pub open spec fn has_slot(d: Seq<SlotModel>, band: Seq<char>, channel: u16) -> bool {
    exists|m: int| 0 <= m < d.len() && d[m].band == band && d[m].channel == channel
}

/// Every slot of `a` is a slot of `b`.
pub open spec fn slots_within(a: Seq<SlotModel>, b: Seq<SlotModel>) -> bool {
    forall|k: int| 0 <= k < a.len() ==> has_slot(b, (#[trigger] a[k]).band, a[k].channel)
}

proof fn lemma_slot_before_strict(x: SlotModel, y: SlotModel)
    requires
        slot_before(x.band, x.channel, y.band, y.channel),
    ensures
        !(x.band == y.band && x.channel == y.channel),
        !slot_before(y.band, y.channel, x.band, x.channel),
{
    lemma_slot_order(x.band, x.channel, y.band, y.channel, x.band, x.channel);
}

/// Where in `d` the slot of entry `k` of another list lies.
proof fn lemma_slot_at(d: Seq<SlotModel>, band: Seq<char>, channel: u16) -> (m: int)
    requires
        has_slot(d, band, channel),
    ensures
        0 <= m < d.len() && d[m].band == band && d[m].channel == channel,
{
    reveal(has_slot);
    choose|m: int| 0 <= m < d.len() && d[m].band == band && d[m].channel == channel
}

proof fn lemma_slot_found(d: Seq<SlotModel>, m: int)
    requires
        0 <= m < d.len(),
    ensures
        has_slot(d, d[m].band, d[m].channel),
{
    reveal(has_slot);
}

/// Both lists start with the same slot.
proof fn lemma_same_head(a: Seq<SlotModel>, b: Seq<SlotModel>)
    requires
        a.len() > 0,
        slots_sorted(a),
        slots_sorted(b),
        slots_within(a, b),
        slots_within(b, a),
    ensures
        b.len() > 0,
        a[0].band == b[0].band && a[0].channel == b[0].channel,
{
    assert(has_slot(b, a[0].band, a[0].channel));
    let m = lemma_slot_at(b, a[0].band, a[0].channel);
    assert(has_slot(a, b[0].band, b[0].channel));
    let l = lemma_slot_at(a, b[0].band, b[0].channel);
    if m > 0 {
        assert(slot_before(b[0].band, b[0].channel, b[m].band, b[m].channel));
        if l > 0 {
            assert(slot_before(a[0].band, a[0].channel, a[l].band, a[l].channel));
            lemma_slot_before_strict(a[0], a[l]);
        } else {
            lemma_slot_before_strict(b[0], b[m]);
        }
    }
}

/// Past a shared first slot, the slots of the rest of `a` lie in the rest of
/// `b`.
proof fn lemma_tail_within(a: Seq<SlotModel>, b: Seq<SlotModel>)
    requires
        a.len() > 0,
        b.len() > 0,
        slots_sorted(a),
        slots_within(a, b),
        a[0].band == b[0].band && a[0].channel == b[0].channel,
    ensures
        slots_within(a.drop_first(), b.drop_first()),
{
    let a1 = a.drop_first();
    let b1 = b.drop_first();
    assert forall|k: int| 0 <= k < a1.len() implies has_slot(b1, (#[trigger] a1[k]).band, a1[k].channel) by {
        assert(a1[k] == a[k + 1]);
        assert(has_slot(b, a[k + 1].band, a[k + 1].channel));
        let p = lemma_slot_at(b, a[k + 1].band, a[k + 1].channel);
        assert(slot_before(a[0].band, a[0].channel, a[k + 1].band, a[k + 1].channel));
        lemma_slot_before_strict(a[0], a[k + 1]);
        assert(p != 0);
        assert(b1[p - 1] == b[p]);
        lemma_slot_found(b1, p - 1);
    }
}

proof fn lemma_sorted_tail(a: Seq<SlotModel>)
    requires
        a.len() > 0,
        slots_sorted(a),
    ensures
        slots_sorted(a.drop_first()),
{
    let a1 = a.drop_first();
    assert forall|x: int, y: int| 0 <= x < y < a1.len() implies slot_before(
        a1[x].band,
        a1[x].channel,
        a1[y].band,
        a1[y].channel,
    ) by {
        assert(a1[x] == a[x + 1] && a1[y] == a[y + 1]);
    }
}

proof fn lemma_same_slots(a: Seq<SlotModel>, b: Seq<SlotModel>)
    requires
        slots_sorted(a),
        slots_sorted(b),
        slots_within(a, b),
        slots_within(b, a),
    ensures
        a.len() == b.len(),
        forall|k: int| 0 <= k < a.len() ==> #[trigger] a[k].band == b[k].band && a[k].channel == b[k].channel,
    decreases a.len(),
{
    if a.len() == 0 {
        if b.len() > 0 {
            assert(has_slot(a, b[0].band, b[0].channel));
            let l = lemma_slot_at(a, b[0].band, b[0].channel);
        }
    } else {
        lemma_same_head(a, b);
        lemma_tail_within(a, b);
        lemma_tail_within(b, a);
        lemma_sorted_tail(a);
        lemma_sorted_tail(b);
        let a1 = a.drop_first();
        let b1 = b.drop_first();
        lemma_same_slots(a1, b1);
        assert forall|k: int| 0 <= k < a.len() implies #[trigger] a[k].band == b[k].band
            && a[k].channel == b[k].channel by {
            if k > 0 {
                assert(a[k] == a1[k - 1]);
                assert(b[k] == b1[k - 1]);
            }
        }
    }
}

proof fn lemma_distribution_within(nets: Seq<NetworkModel>, d1: Seq<SlotModel>, d2: Seq<SlotModel>, n: nat)
    requires
        n <= nets.len(),
        distribution_of(nets, d1, n),
        distribution_of(nets, d2, n),
    ensures
        slots_within(d1, d2),
{
    assert forall|k: int| 0 <= k < d1.len() implies has_slot(d2, (#[trigger] d1[k]).band, d1[k].channel) by {
        assert(d1[k].network_count > 0);
        lemma_slot_count_bounds(nets, d1[k].band, d1[k].channel, n);
        let j = choose|j: int| 0 <= j < n && on_slot(#[trigger] nets[j], d1[k].band, d1[k].channel);
        assert(nets[j].channel != 0);
        let m = choose|m: int|
            0 <= m < d2.len() && d2[m].band == nets[j].band && d2[m].channel == nets[j].channel;
        lemma_slot_found(d2, m);
    }
}

/// A list of networks has one distribution: any two lists that count it per
/// channel are the same list.
pub proof fn law_distribution_is_unique(
    nets: Seq<NetworkModel>,
    d1: Seq<SlotModel>,
    d2: Seq<SlotModel>,
    n: nat,
)
    requires
        n <= nets.len(),
        distribution_of(nets, d1, n),
        distribution_of(nets, d2, n),
    ensures
        d1 == d2,
{
    lemma_distribution_within(nets, d1, d2, n);
    lemma_distribution_within(nets, d2, d1, n);
    lemma_same_slots(d1, d2);
    assert forall|k: int| 0 <= k < d1.len() implies #[trigger] d1[k] == d2[k] by {
        assert(d1[k].band == d2[k].band && d1[k].channel == d2[k].channel);
    }
    assert(d1 =~= d2);
}

/// At most one network of the list is marked connected.
pub open spec fn at_most_one_connected(nets: Seq<NetworkModel>) -> bool {
    forall|i: int, j: int|
        0 <= i < j < nets.len() ==> !(#[trigger] nets[i].is_connected && #[trigger] nets[j].is_connected)
}

/// What a finished scan holds of the marked list it was given: the same
/// networks reordered, still at most one of them connected, and the one
/// distribution of the ordered list (so `build_channel_distribution` on its
/// networks gives its distribution again).
pub proof fn law_finished_scan(
    marked_list: Seq<NetworkModel>,
    networks: Seq<NetworkModel>,
    distribution: Seq<SlotModel>,
    recount: Seq<SlotModel>,
)
    requires
        stably_sorted(marked_list, networks),
        distribution_of(networks, distribution, networks.len()),
        distribution_of(networks, recount, networks.len()),
    ensures
        networks.len() == marked_list.len(),
        at_most_one_connected(marked_list) ==> at_most_one_connected(networks),
        distribution == recount,
{
    law_distribution_is_unique(networks, distribution, recount, networks.len());
    let p = choose|p: Seq<int>|
        is_permutation(p, marked_list.len()) && drawn_from(marked_list, networks, p)
            && in_list_order(networks) && keeps_ties(networks, p);
    if at_most_one_connected(marked_list) {
        assert forall|i: int, j: int| 0 <= i < j < networks.len() implies !(
        #[trigger] networks[i].is_connected && #[trigger] networks[j].is_connected) by {
            assert(networks[i] == marked_list[p[i]]);
            assert(networks[j] == marked_list[p[j]]);
            assert(p[i] != p[j]);
            if p[i] < p[j] {
                assert(!(marked_list[p[i]].is_connected && marked_list[p[j]].is_connected));
            } else {
                assert(!(marked_list[p[j]].is_connected && marked_list[p[i]].is_connected));
            }
        }
    }
}

// ---------------------------------------------------------------------------
// The finished scan
// ---------------------------------------------------------------------------

/// Orders the networks of a scan (their connection already marked) and counts
/// them per channel.
pub fn finish_scan(scanned_at: String, source: String, networks: Vec<WifiNetwork>) -> (r:
    ScanResult)
    ensures
        r.scanned_at@ == scanned_at@,
        r.source@ == source@,
        stably_sorted(models(networks@), models(r.networks@)),
        distribution_of(models(r.networks@), slots(r.channel_distribution@), r.networks.len() as nat),
{
    let mut networks = networks;
    sort_networks(&mut networks);
    let channel_distribution = build_channel_distribution(&networks);
    ScanResult { scanned_at, source, networks, channel_distribution }
}

} // verus!
