//! macOS: the output of `airport -s`, `system_profiler SPAirPortDataType`
//! and `networksetup`, what CoreWLAN reports, and the decisions of the macOS
//! scan between CoreWLAN and the command-line fallbacks.
use vstd::prelude::*;
use crate::text::{
    after_colon, after_prefix, chars_of, contains, copy_range, ends_with, find_first,
    first_occurrence, holds, is, join, join_range, lines, owned, parse_int32, parse_i32,
    split_whitespace, string_from_chars, strip_end_all, strip_prefix, text_lines, trim, trim_chars,
    trim_end_matches, value_after_colon, views, words,
};
use crate::wifi::{
    any_displayable, channel_band, channel_number, has_displayable_ssid, in_band, is_mac,
    is_mac_chars, make_network, models, network_of, non_displayable, is_non_displayable_ssid,
    parse_channel_band_chars, parse_channel_chars, parse_signal_dbm_chars, signal_in, synthetic,
    synthetic_bssid, to_lowercase, unicode_lowercase, NetworkModel, WifiBand, WifiNetwork,
    ScanError, ScanErrorModel, ScanIssueCode, ScanRecoveryAction,
};

verus! {

// ---------------------------------------------------------------------------
// `airport -s`
// ---------------------------------------------------------------------------

/// The index of the first word that is a MAC address.
pub open spec fn first_mac(tokens: Seq<Seq<char>>) -> Option<int>
    decreases tokens.len(),
{
    if tokens.len() == 0 {
        None
    } else if is_mac(tokens[0]) {
        Some(0)
    } else {
        match first_mac(tokens.drop_first()) {
            Some(i) => Some(i + 1),
            None => None,
        }
    }
}

/// One row of `airport -s`: `SSID BSSID RSSI CHANNEL HT CC SECURITY`, where
/// the SSID is every word before the first MAC address and the security every
/// word from the sixth after it on. Rows without SSID words, without RSSI and
/// channel, or whose RSSI or channel do not read as numbers give nothing.
pub open spec fn airport_row(line: Seq<char>) -> Option<NetworkModel> {
    let tokens = words(line);
    match first_mac(tokens) {
        None => None,
        Some(b) => if b == 0 || tokens.len() <= b + 2 {
            None
        } else {
            match parse_i32(tokens[b + 1]) {
                None => None,
                Some(signal) => match channel_number(tokens[b + 2]) {
                    None => None,
                    Some(channel) => Some(
                        network_of(
                            join(tokens.subrange(0, b), " "@),
                            unicode_lowercase(tokens[b]),
                            signal as i32,
                            channel,
                            if b + 6 <= tokens.len() {
                                join(tokens.subrange(b + 6, tokens.len() as int), " "@)
                            } else {
                                "Unknown"@
                            },
                            None,
                        ),
                    ),
                },
            }
        },
    }
}

/// The networks of the rows `ls`.
pub open spec fn airport_rows(ls: Seq<Seq<char>>) -> Seq<NetworkModel>
    decreases ls.len(),
{
    if ls.len() == 0 {
        seq![]
    } else {
        match airport_row(ls[0]) {
            Some(n) => seq![n] + airport_rows(ls.drop_first()),
            None => airport_rows(ls.drop_first()),
        }
    }
}

/// The networks of `airport -s` output: every line but the header.
pub open spec fn airport_networks(raw: Seq<char>) -> Seq<NetworkModel> {
    let ls = lines(raw);
    if ls.len() == 0 {
        seq![]
    } else {
        airport_rows(ls.drop_first())
    }
}

// ---------------------------------------------------------------------------
// Law of the `airport -s` signal
// ---------------------------------------------------------------------------

/// The row `n` reads its signal from `line`: the word after the line's first
/// MAC address is an integer, and it is `n`'s signal, sign included.
pub open spec fn signal_column_of(line: Seq<char>, n: NetworkModel) -> bool {
    let w = words(line);
    exists|b: int|
        0 <= b && b + 1 < w.len() && is_mac(#[trigger] w[b]) && (forall|a: int|
            0 <= a < b ==> !is_mac(w[a])) && parse_i32(w[b + 1]) == Some(n.signal_dbm as int)
}

proof fn lemma_first_mac(t: Seq<Seq<char>>)
    ensures
        first_mac(t) matches Some(b) ==> 0 <= b < t.len() && is_mac(t[b]) && forall|a: int|
            0 <= a < b ==> !is_mac(t[a]),
    decreases t.len(),
{
    if t.len() > 0 && !is_mac(t[0]) {
        lemma_first_mac(t.drop_first());
        if first_mac(t) is Some {
            let b = first_mac(t)->0;
            assert forall|a: int| 0 <= a < b implies !is_mac(t[a]) by {
                if a > 0 {
                    assert(t[a] == t.drop_first()[a - 1]);
                }
            }
            assert(t[b] == t.drop_first()[b - 1]);
        }
    }
}

proof fn lemma_airport_rows(ls: Seq<Seq<char>>)
    ensures
        forall|k: int|
            0 <= k < airport_rows(ls).len() ==> exists|l: int|
                0 <= l < ls.len() && signal_column_of(ls[l], #[trigger] airport_rows(ls)[k]),
    decreases ls.len(),
{
    if ls.len() > 0 {
        lemma_airport_rows(ls.drop_first());
        let rest = airport_rows(ls.drop_first());
        assert forall|k: int| 0 <= k < airport_rows(ls).len() implies exists|l: int|
            0 <= l < ls.len() && signal_column_of(ls[l], #[trigger] airport_rows(ls)[k]) by {
            match airport_row(ls[0]) {
                Some(n) => {
                    if k == 0 {
                        let w = words(ls[0]);
                        lemma_first_mac(w);
                        let b = first_mac(w)->0;
                        assert(airport_rows(ls)[0] == n);
                        assert(is_mac(w[b]));
                        assert(signal_column_of(ls[0], n));
                    } else {
                        assert(airport_rows(ls)[k] == rest[k - 1]);
                        let l = choose|l: int|
                            0 <= l < ls.drop_first().len() && signal_column_of(
                                ls.drop_first()[l],
                                rest[k - 1],
                            );
                        assert(ls[l + 1] == ls.drop_first()[l]);
                    }
                },
                None => {
                    assert(airport_rows(ls)[k] == rest[k]);
                    let l = choose|l: int|
                        0 <= l < ls.drop_first().len() && signal_column_of(ls.drop_first()[l], rest[k]);
                    assert(ls[l + 1] == ls.drop_first()[l]);
                },
            }
        }
    }
}

/// Every network read from `airport -s` output comes from a line after the
/// header whose RSSI column (the word right after the line's first MAC
/// address) is exactly its signal, sign included.
pub proof fn law_airport_signal_is_the_rssi_column(raw: Seq<char>)
    ensures
        forall|k: int|
            0 <= k < airport_networks(raw).len() ==> exists|l: int|
                1 <= l < lines(raw).len() && signal_column_of(
                    lines(raw)[l],
                    #[trigger] airport_networks(raw)[k],
                ),
{
    let ls = lines(raw);
    if ls.len() > 0 {
        lemma_airport_rows(ls.drop_first());
        assert forall|k: int| 0 <= k < airport_networks(raw).len() implies exists|l: int|
            1 <= l < ls.len() && signal_column_of(ls[l], #[trigger] airport_networks(raw)[k]) by {
            let l = choose|l: int|
                0 <= l < ls.drop_first().len() && signal_column_of(
                    ls.drop_first()[l],
                    airport_rows(ls.drop_first())[k],
                );
            assert(ls[l + 1] == ls.drop_first()[l]);
        }
    }
}

fn first_mac_index(tokens: &Vec<Vec<char>>) -> (r: Option<usize>)
    ensures
        r matches Some(i) ==> first_mac(views(tokens@)) == Some(i as int) && i < tokens.len(),
        r is None ==> first_mac(views(tokens@)) is None,
{
    let mut i: usize = 0;
    assert(views(tokens@).subrange(0, tokens.len() as int) =~= views(tokens@));
    while i < tokens.len()
        invariant
            i <= tokens.len(),
            first_mac(views(tokens@)) == match first_mac(
                views(tokens@).subrange(i as int, tokens.len() as int),
            ) {
                Some(k) => Some(k + i),
                None => None,
            },
        decreases tokens.len() - i,
    {
        let ghost rest = views(tokens@).subrange(i as int, tokens.len() as int);
        assert(rest.drop_first() =~= views(tokens@).subrange(i + 1, tokens.len() as int));
        assert(rest[0] == tokens@[i as int]@);
        if is_mac_chars(&tokens[i]) {
            return Some(i);
        }
        i += 1;
    }
    None
}

fn airport_row_network(line: &Vec<char>) -> (r: Option<WifiNetwork>)
    ensures
        r matches Some(n) ==> airport_row(line@) == Some(n@),
        r is None ==> airport_row(line@) is None,
{
    let tokens = split_whitespace(line);
    let b = match first_mac_index(&tokens) {
        Some(b) => b,
        None => return None,
    };
    if b == 0 || tokens.len() - b <= 2 {
        return None;
    }
    assert(views(tokens@)[b + 1] == tokens@[b + 1]@);
    assert(views(tokens@)[b + 2] == tokens@[b + 2]@);
    assert(views(tokens@)[b as int] == tokens@[b as int]@);
    let signal = match parse_int32(&tokens[b + 1]) {
        Some(v) => v,
        None => return None,
    };
    let channel = match parse_channel_chars(&tokens[b + 2]) {
        Some(c) => c,
        None => return None,
    };
    let ssid = join_range(&tokens, 0, b, " ");
    let token = copy_range(&tokens[b], 0, tokens[b].len());
    assert(token@ =~= tokens@[b as int]@);
    let token_text = string_from_chars(token);
    let bssid = to_lowercase(token_text.as_str());
    let security = if tokens.len() - b >= 6 {
        string_from_chars(join_range(&tokens, b + 6, tokens.len(), " "))
    } else {
        owned("Unknown")
    };
    let n = make_network(string_from_chars(ssid), bssid, signal, channel, security, None);
    proof {
        let t = words(line@);
        assert(t == views(tokens@));
        assert(first_mac(t) == Some(b as int));
        assert(parse_i32(t[b + 1]) == Some(signal as int));
        assert(channel_number(t[b + 2]) == Some(channel));
        assert(ssid@ == join(t.subrange(0, b as int), " "@));
        assert((signal as int) as i32 == signal);
        assert(bssid@ == unicode_lowercase(t[b as int]));
        assert(security@ == (if b + 6 <= t.len() {
            join(t.subrange(b + 6, t.len() as int), " "@)
        } else {
            "Unknown"@
        }));
        assert(airport_row(line@) == Some(n@));
    }
    Some(n)
}

pub fn parse_airport(raw: &str) -> (r: Vec<WifiNetwork>)
    ensures
        models(r@) == airport_networks(raw@),
{
    let ls = text_lines(raw);
    let mut networks: Vec<WifiNetwork> = Vec::new();
    if ls.len() == 0 {
        assert(models(networks@) =~= seq![]);
        return networks;
    }
    let mut i: usize = 1;
    assert(views(ls@).subrange(1, ls.len() as int) =~= views(ls@).drop_first());
    assert(models(networks@) =~= seq![]);
    while i < ls.len()
        invariant
            1 <= i <= ls.len(),
            views(ls@) == lines(raw@),
            airport_networks(raw@) == models(networks@) + airport_rows(
                views(ls@).subrange(i as int, ls.len() as int),
            ),
        decreases ls.len() - i,
    {
        let ghost rest = views(ls@).subrange(i as int, ls.len() as int);
        assert(rest.drop_first() =~= views(ls@).subrange(i + 1, ls.len() as int));
        assert(rest[0] == ls@[i as int]@);
        let ghost before = models(networks@);
        match airport_row_network(&ls[i]) {
            Some(n) => {
                networks.push(n);
                assert(models(networks@) =~= before.push(n@));
                assert(before + (seq![n@] + airport_rows(rest.drop_first())) =~= models(networks@)
                    + airport_rows(rest.drop_first()));
            },
            None => {},
        }
        i += 1;
    }
    assert(views(ls@).subrange(i as int, ls.len() as int) =~= seq![]);
    assert(models(networks@) + seq![] =~= models(networks@));
    networks
}

// ---------------------------------------------------------------------------
// `system_profiler SPAirPortDataType`
// ---------------------------------------------------------------------------

/// A network entry of `system_profiler` being read.
#[derive(Debug)]
pub struct SystemProfilerNetwork {
    pub ssid: String,
    pub channel: u16,
    pub band: Option<WifiBand>,
    pub signal_dbm: Option<i32>,
    pub security: String,
    pub is_connected: bool,
}

pub struct ProfilerEntry {
    pub ssid: Seq<char>,
    pub channel: u16,
    pub band: Option<WifiBand>,
    pub signal_dbm: Option<i32>,
    pub security: Seq<char>,
    pub is_connected: bool,
}

impl View for SystemProfilerNetwork {
    type V = ProfilerEntry;

    open spec fn view(&self) -> ProfilerEntry {
        ProfilerEntry {
            ssid: self.ssid@,
            channel: self.channel,
            band: self.band,
            signal_dbm: self.signal_dbm,
            security: self.security@,
            is_connected: self.is_connected,
        }
    }
}

pub open spec fn opt_entry(e: Option<SystemProfilerNetwork>) -> Option<ProfilerEntry> {
    match e {
        Some(e) => Some(e@),
        None => None,
    }
}

/// The network an entry describes when it has a name and a channel: without
/// a signal it reads -82 dBm, its BSSID is synthetic (salted with the number
/// of networks recorded before it), its band is the one the channel field
/// named, and it is connected when listed under the current network.
pub open spec fn profiler_network(networks: Seq<NetworkModel>, e: ProfilerEntry) -> Option<
    NetworkModel,
> {
    if e.ssid.len() == 0 || e.channel == 0 {
        None
    } else {
        let signal: i32 = match e.signal_dbm {
            Some(s) => s,
            None => -82i32,
        };
        let n = in_band(
            network_of(
                e.ssid,
                synthetic(e.ssid, e.channel, networks.len() as usize),
                signal,
                e.channel,
                e.security,
                None,
            ),
            e.band,
        );
        Some(NetworkModel { is_connected: e.is_connected, ..n })
    }
}

pub open spec fn push_profiler(networks: Seq<NetworkModel>, cur: Option<ProfilerEntry>) -> Seq<
    NetworkModel,
> {
    match cur {
        Some(e) => match profiler_network(networks, e) {
            Some(n) => networks.push(n),
            None => networks,
        },
        None => networks,
    }
}

pub fn push_system_profiler_network(
    networks: &mut Vec<WifiNetwork>,
    network: Option<SystemProfilerNetwork>,
)
    ensures
        models(final(networks)@) == push_profiler(models(old(networks)@), opt_entry(network)),
{
    let network = match network {
        Some(n) => n,
        None => return ,
    };
    if network.ssid.as_str().is_empty() || network.channel == 0 {
        return ;
    }
    let signal_dbm: i32 = match network.signal_dbm {
        Some(s) => s,
        None => -82,
    };
    let bssid = synthetic_bssid(network.ssid.as_str(), network.channel, networks.len());
    let mut parsed = make_network(
        network.ssid,
        bssid,
        signal_dbm,
        network.channel,
        network.security,
        None,
    ).with_band(network.band);
    parsed.is_connected = network.is_connected;
    let ghost before = models(networks@);
    assert(before.len() == networks@.len());
    networks.push(parsed);
    assert(models(networks@) =~= before.push(parsed@));
}

/// A line that closes the network sections.
pub open spec fn section_boundary(t: Seq<char>) -> bool {
    t == "Interfaces:"@ || t == "Software Versions:"@ || t == "Supported Channels:"@
}

pub fn is_system_profiler_section_boundary(trimmed: &Vec<char>) -> (b: bool)
    ensures
        b == section_boundary(trimmed@),
{
    is(trimmed, "Interfaces:") || is(trimmed, "Software Versions:") || is(
        trimmed,
        "Supported Channels:",
    )
}

/// What has been read of `system_profiler` output so far.
pub struct ProfilerScan {
    pub networks: Seq<NetworkModel>,
    pub in_section: bool,
    pub section_connected: bool,
    pub current: Option<ProfilerEntry>,
}

pub open spec fn profiler_scan_start() -> ProfilerScan {
    ProfilerScan { networks: seq![], in_section: false, section_connected: false, current: None }
}

/// A section header line.
pub open spec fn section_header(t: Seq<char>) -> bool {
    t == "Current Network Information:"@ || t == "Other Local Wi-Fi Networks:"@
}

/// A line that names a network: it ends with `:` and nothing follows its
/// first colon.
pub open spec fn entry_header(t: Seq<char>) -> bool {
    ends_with(t, ":"@) && (match after_colon(t) {
        Some(v) => v,
        None => seq![],
    }).len() == 0
}

/// A field line of the network being read.
pub open spec fn profiler_field(e: ProfilerEntry, t: Seq<char>) -> ProfilerEntry {
    match strip_prefix(t, "Channel:"@) {
        Some(v) => ProfilerEntry {
            channel: match channel_number(trim(v)) {
                Some(c) => c,
                None => 0,
            },
            band: channel_band(v),
            ..e
        },
        None => match strip_prefix(t, "Security:"@) {
            Some(v) => ProfilerEntry { security: trim(v), ..e },
            None => match strip_prefix(t, "Signal / Noise:"@) {
                Some(v) => ProfilerEntry { signal_dbm: signal_in(v), ..e },
                None => e,
            },
        },
    }
}

/// One line of `system_profiler` output. Network entries are read only inside
/// the `Current Network Information:` and `Other Local Wi-Fi Networks:`
/// sections; a new section, a closing section or a new entry records the
/// entry read so far.
pub open spec fn profiler_scan_step(st: ProfilerScan, line: Seq<char>) -> ProfilerScan {
    let t = trim(line);
    if section_header(t) {
        ProfilerScan {
            networks: push_profiler(st.networks, st.current),
            in_section: true,
            section_connected: t == "Current Network Information:"@,
            current: None,
        }
    } else if !st.in_section || t.len() == 0 {
        st
    } else if section_boundary(t) {
        ProfilerScan {
            networks: push_profiler(st.networks, st.current),
            in_section: false,
            current: None,
            ..st
        }
    } else if entry_header(t) {
        ProfilerScan {
            networks: push_profiler(st.networks, st.current),
            current: Some(
                ProfilerEntry {
                    ssid: strip_end_all(t, ':'),
                    channel: 0,
                    band: None,
                    signal_dbm: None,
                    security: "Unknown"@,
                    is_connected: st.section_connected,
                },
            ),
            ..st
        }
    } else {
        match st.current {
            Some(e) => ProfilerScan { current: Some(profiler_field(e, t)), ..st },
            None => st,
        }
    }
}

pub open spec fn profiler_scan_run(ls: Seq<Seq<char>>, st: ProfilerScan) -> Seq<NetworkModel>
    decreases ls.len(),
{
    if ls.len() == 0 {
        push_profiler(st.networks, st.current)
    } else {
        profiler_scan_run(ls.drop_first(), profiler_scan_step(st, ls[0]))
    }
}

/// The networks of `system_profiler SPAirPortDataType` output.
pub open spec fn profiler_networks(raw: Seq<char>) -> Seq<NetworkModel> {
    profiler_scan_run(lines(raw), profiler_scan_start())
}

fn is_entry_header(t: &Vec<char>) -> (b: bool)
    ensures
        b == entry_header(t@),
{
    if !crate::text::finishes(t, ":") {
        return false;
    }
    match value_after_colon(t) {
        Some(v) => v.len() == 0,
        None => true,
    }
}

fn read_profiler_field(e: SystemProfilerNetwork, t: &Vec<char>) -> (r: SystemProfilerNetwork)
    ensures
        r@ == profiler_field(e@, t@),
{
    let mut e = e;
    match after_prefix(t, "Channel:") {
        Some(v) => {
            let tv = trim_chars(&v);
            e.channel = match parse_channel_chars(&tv) {
                Some(c) => c,
                None => 0,
            };
            e.band = parse_channel_band_chars(&v);
            return e;
        },
        None => {},
    }
    match after_prefix(t, "Security:") {
        Some(v) => {
            e.security = string_from_chars(trim_chars(&v));
            return e;
        },
        None => {},
    }
    match after_prefix(t, "Signal / Noise:") {
        Some(v) => {
            e.signal_dbm = parse_signal_dbm_chars(&v);
            return e;
        },
        None => {},
    }
    e
}

// ---------------------------------------------------------------------------
// Law of the `system_profiler` security
// ---------------------------------------------------------------------------

/// A line that closes the network entry being read: a section header, or,
/// inside a section, a closing section or the next entry.
pub open spec fn closes_entry(t: Seq<char>) -> bool {
    section_header(t) || (t.len() > 0 && (section_boundary(t) || entry_header(t)))
}

/// The trimmed value of the last `Security:` line among the lines (a
/// `Channel:` line is never one), `Unknown` without one.
pub open spec fn last_security(ls: Seq<Seq<char>>) -> Seq<char>
    decreases ls.len(),
{
    if ls.len() == 0 {
        "Unknown"@
    } else {
        let t = trim(ls.last());
        if t.len() > 0 && strip_prefix(t, "Channel:"@) is None && strip_prefix(t, "Security:"@) is Some {
            trim(strip_prefix(t, "Security:"@)->0)
        } else {
            last_security(ls.drop_last())
        }
    }
}

/// `n` is the entry named at line `h` and closed at line `e` (or at the end):
/// its name is the entry line without its colon, and its security is the
/// value of the entry's last `Security:` line (`Unknown` without one or when
/// it is empty).
pub open spec fn profiler_entry_at(ls: Seq<Seq<char>>, n: NetworkModel, h: int, e: int) -> bool {
    &&& 0 <= h < e <= ls.len()
    &&& entry_header(trim(ls[h]))
    &&& forall|m: int| h < m < e ==> !closes_entry(trim(#[trigger] ls[m]))
    &&& (e == ls.len() || closes_entry(trim(ls[e])))
    &&& n.ssid == strip_end_all(trim(ls[h]), ':')
    &&& n.security == (if last_security(ls.subrange(h + 1, e)).len() == 0 {
        "Unknown"@
    } else {
        last_security(ls.subrange(h + 1, e))
    })
}

pub open spec fn read_profiler_entry(ls: Seq<Seq<char>>, n: NetworkModel) -> bool {
    exists|h: int, e: int| profiler_entry_at(ls, n, h, e)
}

/// The entry being read at line `i` was opened at line `h`.
spec fn entry_since(ls: Seq<Seq<char>>, c: ProfilerEntry, h: int, i: int) -> bool {
    &&& 0 <= h < i
    &&& entry_header(trim(ls[h]))
    &&& c.ssid == strip_end_all(trim(ls[h]), ':')
    &&& forall|m: int| h < m < i ==> !closes_entry(trim(#[trigger] ls[m]))
    &&& c.security == last_security(ls.subrange(h + 1, i))
}

spec fn profiler_invariant(ls: Seq<Seq<char>>, i: int, st: ProfilerScan) -> bool {
    &&& forall|k: int| 0 <= k < st.networks.len() ==> read_profiler_entry(ls, #[trigger] st.networks[k])
    &&& (!st.in_section ==> st.current is None)
    &&& (st.current matches Some(c) ==> exists|h: int| entry_since(ls, c, h, i))
}

proof fn lemma_push_profiler_entry(ls: Seq<Seq<char>>, i: int, st: ProfilerScan)
    requires
        0 <= i <= ls.len(),
        i == ls.len() || closes_entry(trim(ls[i])),
        profiler_invariant(ls, i, st),
    ensures
        forall|k: int|
            0 <= k < push_profiler(st.networks, st.current).len() ==> read_profiler_entry(
                ls,
                #[trigger] push_profiler(st.networks, st.current)[k],
            ),
{
    let out = push_profiler(st.networks, st.current);
    assert forall|k: int| 0 <= k < out.len() implies read_profiler_entry(ls, #[trigger] out[k]) by {
        if k < st.networks.len() {
            assert(out[k] == st.networks[k]);
        } else {
            let c = st.current->0;
            let h = choose|h: int| entry_since(ls, c, h, i);
            assert(profiler_entry_at(ls, out[k], h, i));
        }
    }
}

proof fn lemma_profiler_entries(ls: Seq<Seq<char>>, i: int, st: ProfilerScan)
    requires
        0 <= i <= ls.len(),
        profiler_invariant(ls, i, st),
    ensures
        forall|k: int|
            0 <= k < profiler_scan_run(ls.subrange(i, ls.len() as int), st).len()
                ==> read_profiler_entry(
                ls,
                #[trigger] profiler_scan_run(ls.subrange(i, ls.len() as int), st)[k],
            ),
    decreases ls.len() - i,
{
    let rest = ls.subrange(i, ls.len() as int);
    if i == ls.len() {
        lemma_push_profiler_entry(ls, i, st);
        assert(profiler_scan_run(rest, st) == push_profiler(st.networks, st.current));
    } else {
        let l = ls[i];
        let t = trim(l);
        assert(rest[0] == l);
        assert(rest.drop_first() =~= ls.subrange(i + 1, ls.len() as int));
        let next = profiler_scan_step(st, l);
        if closes_entry(t) && (section_header(t) || st.in_section) {
            lemma_push_profiler_entry(ls, i, st);
            if !section_header(t) && !section_boundary(t) {
                let c = next.current->0;
                assert(ls.subrange(i + 1, i + 1) =~= Seq::<Seq<char>>::empty());
                assert(entry_since(ls, c, i, i + 1));
            }
        } else {
            assert(next.networks == st.networks);
            if next.current is Some {
                let c = st.current->0;
                let h = choose|h: int| entry_since(ls, c, h, i);
                let b = ls.subrange(h + 1, i + 1);
                assert(b.drop_last() =~= ls.subrange(h + 1, i));
                assert(b.last() == l);
                assert(entry_since(ls, next.current->0, h, i + 1));
            }
        }
        assert(profiler_invariant(ls, i + 1, next));
        lemma_profiler_entries(ls, i + 1, next);
        assert(profiler_scan_run(rest, st) == profiler_scan_run(ls.subrange(i + 1, ls.len() as int), next));
    }
}

/// Every network read from `system_profiler` output is an entry of the text:
/// it is named by its entry line, and its security is the trimmed value of
/// the entry's last `Security:` line (`Unknown` without one), so
/// `Security: None` gives an open network and `Security: WPA2 Enterprise` an
/// enterprise one.
pub proof fn law_profiler_security(raw: Seq<char>)
    ensures
        forall|k: int|
            0 <= k < profiler_networks(raw).len() ==> read_profiler_entry(
                lines(raw),
                #[trigger] profiler_networks(raw)[k],
            ),
{
    let ls = lines(raw);
    assert(ls.subrange(0, ls.len() as int) =~= ls);
    lemma_profiler_entries(ls, 0, profiler_scan_start());
}

pub fn parse_system_profiler_airport(raw: &str) -> (r: Vec<WifiNetwork>)
    ensures
        models(r@) == profiler_networks(raw@),
{
    let ls = text_lines(raw);
    let mut networks: Vec<WifiNetwork> = Vec::new();
    let mut in_section = false;
    let mut section_connected = false;
    let mut current: Option<SystemProfilerNetwork> = None;
    let mut i: usize = 0;
    assert(views(ls@).subrange(0, ls.len() as int) =~= views(ls@));
    assert(models(networks@) =~= seq![]);
    while i < ls.len()
        invariant
            i <= ls.len(),
            views(ls@) == lines(raw@),
            profiler_networks(raw@) == profiler_scan_run(
                views(ls@).subrange(i as int, ls.len() as int),
                ProfilerScan {
                    networks: models(networks@),
                    in_section: in_section,
                    section_connected: section_connected,
                    current: opt_entry(current),
                },
            ),
        decreases ls.len() - i,
    {
        let ghost rest = views(ls@).subrange(i as int, ls.len() as int);
        assert(rest.drop_first() =~= views(ls@).subrange(i + 1, ls.len() as int));
        assert(rest[0] == ls@[i as int]@);
        let t = trim_chars(&ls[i]);
        let is_current = is(&t, "Current Network Information:");
        if is_current || is(&t, "Other Local Wi-Fi Networks:") {
            push_system_profiler_network(&mut networks, current);
            current = None;
            in_section = true;
            section_connected = is_current;
        } else if !in_section || t.len() == 0 {
        } else if is_system_profiler_section_boundary(&t) {
            push_system_profiler_network(&mut networks, current);
            current = None;
            in_section = false;
        } else if is_entry_header(&t) {
            push_system_profiler_network(&mut networks, current);
            let name = trim_end_matches(&t, ':');
            current = Some(
                SystemProfilerNetwork {
                    ssid: string_from_chars(name),
                    channel: 0,
                    band: None,
                    signal_dbm: None,
                    security: owned("Unknown"),
                    is_connected: section_connected,
                },
            );
        } else {
            current = match current {
                Some(e) => Some(read_profiler_field(e, &t)),
                None => None,
            };
        }
        i += 1;
    }
    push_system_profiler_network(&mut networks, current);
    networks
}

// ---------------------------------------------------------------------------
// Choosing the reader
// ---------------------------------------------------------------------------

/// `system_profiler` output is recognised by its section headers; anything
/// else is read as `airport -s` output.
pub open spec fn macos_networks(raw: Seq<char>) -> Seq<NetworkModel> {
    if contains(raw, "Current Network Information:"@) || contains(
        raw,
        "Other Local Wi-Fi Networks:"@,
    ) {
        profiler_networks(raw)
    } else {
        airport_networks(raw)
    }
}

pub fn parse_by_platform(raw: &str) -> (r: Vec<WifiNetwork>)
    ensures
        models(r@) == macos_networks(raw@),
{
    let text = chars_of(raw);
    if holds(&text, "Current Network Information:") || holds(&text, "Other Local Wi-Fi Networks:") {
        parse_system_profiler_airport(raw)
    } else {
        parse_airport(raw)
    }
}

// ---------------------------------------------------------------------------
// `networksetup`
// ---------------------------------------------------------------------------

/// The device of the first `Wi-Fi` or `AirPort` hardware port that names one,
/// reading the lines from `ls` on; `in_wifi` tells whether the port being read
/// is a WiFi port.
pub open spec fn wifi_device_from(ls: Seq<Seq<char>>, in_wifi: bool) -> Option<Seq<char>>
    decreases ls.len(),
{
    if ls.len() == 0 {
        None
    } else {
        let t = trim(ls[0]);
        match strip_prefix(t, "Hardware Port:"@) {
            Some(port) => {
                let port = trim(port);
                wifi_device_from(ls.drop_first(), port == "Wi-Fi"@ || port == "AirPort"@)
            },
            None => match strip_prefix(t, "Device:"@) {
                Some(device) => if in_wifi && trim(device).len() > 0 {
                    Some(trim(device))
                } else {
                    wifi_device_from(ls.drop_first(), in_wifi)
                },
                None => wifi_device_from(ls.drop_first(), in_wifi),
            },
        }
    }
}

/// The WiFi device in `networksetup -listallhardwareports` output.
pub open spec fn wifi_device(raw: Seq<char>) -> Option<Seq<char>> {
    wifi_device_from(lines(raw), false)
}

pub open spec fn opt_string_view(o: Option<String>) -> Option<Seq<char>> {
    match o {
        Some(s) => Some(s@),
        None => None,
    }
}

pub fn parse_macos_wifi_device(raw: &str) -> (r: Option<String>)
    ensures
        opt_string_view(r) == wifi_device(raw@),
{
    let ls = text_lines(raw);
    let mut in_wifi_port = false;
    let mut i: usize = 0;
    assert(views(ls@).subrange(0, ls.len() as int) =~= views(ls@));
    while i < ls.len()
        invariant
            i <= ls.len(),
            views(ls@) == lines(raw@),
            wifi_device(raw@) == wifi_device_from(
                views(ls@).subrange(i as int, ls.len() as int),
                in_wifi_port,
            ),
        decreases ls.len() - i,
    {
        let ghost rest = views(ls@).subrange(i as int, ls.len() as int);
        assert(rest.drop_first() =~= views(ls@).subrange(i + 1, ls.len() as int));
        assert(rest[0] == ls@[i as int]@);
        let t = trim_chars(&ls[i]);
        match after_prefix(&t, "Hardware Port:") {
            Some(port) => {
                let port = trim_chars(&port);
                in_wifi_port = is(&port, "Wi-Fi") || is(&port, "AirPort");
            },
            None => {
                if in_wifi_port {
                    match after_prefix(&t, "Device:") {
                        Some(device) => {
                            let device = trim_chars(&device);
                            if device.len() > 0 {
                                return Some(string_from_chars(device));
                            }
                        },
                        None => {},
                    }
                }
            },
        }
        i += 1;
    }
    None
}

/// The SSID in `networksetup -getairportnetwork` output: what follows the
/// first `: `, trimmed; none for empty output, output that says it is not
/// associated, or an empty name.
pub open spec fn networksetup_ssid(raw: Seq<char>) -> Option<Seq<char>> {
    let t = trim(raw);
    if t.len() == 0 || contains(t, "not associated"@) {
        None
    } else {
        match first_occurrence(t, ": "@) {
            Some(i) => {
                let ssid = trim(t.subrange(i + 2, t.len() as int));
                if ssid.len() > 0 {
                    Some(ssid)
                } else {
                    None
                }
            },
            None => None,
        }
    }
}

pub fn parse_networksetup_current_ssid(raw: &str) -> (r: Option<String>)
    ensures
        opt_string_view(r) == networksetup_ssid(raw@),
{
    let t = trim_chars(&chars_of(raw));
    if t.len() == 0 || holds(&t, "not associated") {
        return None;
    }
    match find_first(&t, ": ") {
        Some(i) => {
            proof {
                reveal_strlit(": ");
                crate::text::lemma_first_occurrence_bounds(t@, ": "@, i as int);
            }
            let rest = copy_range(&t, i + 2, t.len());
            let ssid = trim_chars(&rest);
            if ssid.len() > 0 {
                Some(string_from_chars(ssid))
            } else {
                None
            }
        },
        None => None,
    }
}

// ---------------------------------------------------------------------------
// CoreWLAN
// ---------------------------------------------------------------------------

/// The security modes CoreWLAN can report for a network (`CWSecurity`).
#[derive(Debug, Clone, Copy, PartialEq, Eq, Structural)]
pub enum CoreWlanSecurity {
    Wpa3Enterprise,
    Wpa3Personal,
    Wpa3Transition,
    Wpa2Enterprise,
    Wpa2Personal,
    WpaEnterpriseMixed,
    WpaPersonalMixed,
    WpaEnterprise,
    WpaPersonal,
    Enterprise,
    Personal,
    DynamicWep,
    Wep,
    Owe,
    OweTransition,
    Open,
}

/// The modes that name a network's security, strongest first.
pub open spec fn security_preference() -> Seq<CoreWlanSecurity> {
    seq![
        CoreWlanSecurity::Wpa3Enterprise,
        CoreWlanSecurity::Wpa3Personal,
        CoreWlanSecurity::Wpa3Transition,
        CoreWlanSecurity::Wpa2Enterprise,
        CoreWlanSecurity::Wpa2Personal,
        CoreWlanSecurity::WpaEnterpriseMixed,
        CoreWlanSecurity::WpaPersonalMixed,
        CoreWlanSecurity::WpaEnterprise,
        CoreWlanSecurity::WpaPersonal,
        CoreWlanSecurity::Enterprise,
        CoreWlanSecurity::Personal,
        CoreWlanSecurity::DynamicWep,
        CoreWlanSecurity::Wep,
        CoreWlanSecurity::Owe,
        CoreWlanSecurity::OweTransition,
    ]
}

impl CoreWlanSecurity {
    pub open spec fn name(self) -> Seq<char> {
        match self {
            CoreWlanSecurity::Wpa3Enterprise => "WPA3 Enterprise"@,
            CoreWlanSecurity::Wpa3Personal => "WPA3 Personal"@,
            CoreWlanSecurity::Wpa3Transition => "WPA3/WPA2 Personal"@,
            CoreWlanSecurity::Wpa2Enterprise => "WPA2 Enterprise"@,
            CoreWlanSecurity::Wpa2Personal => "WPA2 Personal"@,
            CoreWlanSecurity::WpaEnterpriseMixed => "WPA/WPA2 Enterprise"@,
            CoreWlanSecurity::WpaPersonalMixed => "WPA/WPA2 Personal"@,
            CoreWlanSecurity::WpaEnterprise => "WPA Enterprise"@,
            CoreWlanSecurity::WpaPersonal => "WPA Personal"@,
            CoreWlanSecurity::Enterprise => "Enterprise"@,
            CoreWlanSecurity::Personal => "Personal"@,
            CoreWlanSecurity::DynamicWep => "Dynamic WEP"@,
            CoreWlanSecurity::Wep => "WEP"@,
            CoreWlanSecurity::Owe => "OWE"@,
            CoreWlanSecurity::OweTransition => "OWE Transition"@,
            CoreWlanSecurity::Open => "Open"@,
        }
    }

    pub fn label(self) -> (r: &'static str)
        ensures
            r@ == self.name(),
    {
        match self {
            CoreWlanSecurity::Wpa3Enterprise => "WPA3 Enterprise",
            CoreWlanSecurity::Wpa3Personal => "WPA3 Personal",
            CoreWlanSecurity::Wpa3Transition => "WPA3/WPA2 Personal",
            CoreWlanSecurity::Wpa2Enterprise => "WPA2 Enterprise",
            CoreWlanSecurity::Wpa2Personal => "WPA2 Personal",
            CoreWlanSecurity::WpaEnterpriseMixed => "WPA/WPA2 Enterprise",
            CoreWlanSecurity::WpaPersonalMixed => "WPA/WPA2 Personal",
            CoreWlanSecurity::WpaEnterprise => "WPA Enterprise",
            CoreWlanSecurity::WpaPersonal => "WPA Personal",
            CoreWlanSecurity::Enterprise => "Enterprise",
            CoreWlanSecurity::Personal => "Personal",
            CoreWlanSecurity::DynamicWep => "Dynamic WEP",
            CoreWlanSecurity::Wep => "WEP",
            CoreWlanSecurity::Owe => "OWE",
            CoreWlanSecurity::OweTransition => "OWE Transition",
            CoreWlanSecurity::Open => "Open",
        }
    }
}

/// The first mode of `order` that the network supports.
pub open spec fn first_supported(order: Seq<CoreWlanSecurity>, supported: Seq<CoreWlanSecurity>) -> Option<
    CoreWlanSecurity,
>
    decreases order.len(),
{
    if order.len() == 0 {
        None
    } else if supported.contains(order[0]) {
        Some(order[0])
    } else {
        first_supported(order.drop_first(), supported)
    }
}

/// The security a network reports: its strongest supported mode, else `Open`
/// when it supports no security, else `Unknown`.
pub open spec fn core_wlan_security_name(supported: Seq<CoreWlanSecurity>) -> Seq<char> {
    match first_supported(security_preference(), supported) {
        Some(m) => m.name(),
        None => if supported.contains(CoreWlanSecurity::Open) {
            "Open"@
        } else {
            "Unknown"@
        },
    }
}

fn supports(supported: &Vec<CoreWlanSecurity>, mode: CoreWlanSecurity) -> (r: bool)
    ensures
        r == supported@.contains(mode),
{
    let mut i: usize = 0;
    while i < supported.len()
        invariant
            i <= supported.len(),
            forall|j: int| 0 <= j < i ==> supported@[j] != mode,
        decreases supported.len() - i,
    {
        if supported[i] == mode {
            return true;
        }
        i += 1;
    }
    false
}

pub fn core_wlan_security(supported: &Vec<CoreWlanSecurity>) -> (r: String)
    ensures
        r@ == core_wlan_security_name(supported@),
{
    let order: Vec<CoreWlanSecurity> = vec![
        CoreWlanSecurity::Wpa3Enterprise,
        CoreWlanSecurity::Wpa3Personal,
        CoreWlanSecurity::Wpa3Transition,
        CoreWlanSecurity::Wpa2Enterprise,
        CoreWlanSecurity::Wpa2Personal,
        CoreWlanSecurity::WpaEnterpriseMixed,
        CoreWlanSecurity::WpaPersonalMixed,
        CoreWlanSecurity::WpaEnterprise,
        CoreWlanSecurity::WpaPersonal,
        CoreWlanSecurity::Enterprise,
        CoreWlanSecurity::Personal,
        CoreWlanSecurity::DynamicWep,
        CoreWlanSecurity::Wep,
        CoreWlanSecurity::Owe,
        CoreWlanSecurity::OweTransition,
    ];
    assert(order@ =~= security_preference());
    let mut i: usize = 0;
    assert(order@.subrange(0, order.len() as int) =~= order@);
    while i < order.len()
        invariant
            i <= order.len(),
            first_supported(security_preference(), supported@) == first_supported(
                order@.subrange(i as int, order.len() as int),
                supported@,
            ),
        decreases order.len() - i,
    {
        let ghost rest = order@.subrange(i as int, order.len() as int);
        assert(rest.drop_first() =~= order@.subrange(i + 1, order.len() as int));
        if supports(supported, order[i]) {
            return owned(order[i].label());
        }
        i += 1;
    }
    if supports(supported, CoreWlanSecurity::Open) {
        owned("Open")
    } else {
        owned("Unknown")
    }
}

/// A channel as CoreWLAN reports it.
#[derive(Debug, Clone, Copy)]
pub struct CoreWlanChannel {
    pub number: i64,
    pub band: Option<WifiBand>,
}

/// A network as CoreWLAN reports it.
#[derive(Debug, Clone)]
pub struct CoreWlanNetwork {
    pub ssid: Option<String>,
    pub bssid: Option<String>,
    pub rssi: i64,
    pub channel: Option<CoreWlanChannel>,
    pub supported_security: Vec<CoreWlanSecurity>,
}

pub struct CoreWlanModel {
    pub ssid: Option<Seq<char>>,
    pub bssid: Option<Seq<char>>,
    pub rssi: i64,
    pub channel: Option<CoreWlanChannel>,
    pub supported_security: Seq<CoreWlanSecurity>,
}

impl View for CoreWlanNetwork {
    type V = CoreWlanModel;

    open spec fn view(&self) -> CoreWlanModel {
        CoreWlanModel {
            ssid: opt_string_view(self.ssid),
            bssid: opt_string_view(self.bssid),
            rssi: self.rssi,
            channel: self.channel,
            supported_security: self.supported_security@,
        }
    }
}

/// A channel number held to `0..=u16::MAX`.
pub open spec fn clamp_u16(v: i64) -> u16 {
    if v < 0 {
        0
    } else if v > 65535 {
        65535
    } else {
        v as u16
    }
}

/// A signal held to the range of `i32`.
pub open spec fn clamp_i32(v: i64) -> i32 {
    if v < -2147483648 {
        -2147483648i32
    } else if v > 2147483647 {
        2147483647i32
    } else {
        v as i32
    }
}

pub fn clamp_channel(v: i64) -> (r: u16)
    ensures
        r == clamp_u16(v),
{
    if v < 0 {
        0
    } else if v > 65535 {
        65535
    } else {
        v as u16
    }
}

pub fn clamp_signal(v: i64) -> (r: i32)
    ensures
        r == clamp_i32(v),
{
    if v < -2147483648 {
        -2147483648
    } else if v > 2147483647 {
        2147483647
    } else {
        v as i32
    }
}

/// A reported BSSID, lower-cased, when it is a MAC address.
pub open spec fn reported_bssid(b: Option<Seq<char>>) -> Option<Seq<char>> {
    match b {
        Some(b) => if is_mac(crate::text::lower(b)) {
            Some(crate::text::lower(b))
        } else {
            None
        },
        None => None,
    }
}

fn read_bssid(b: &Option<String>) -> (r: Option<String>)
    ensures
        opt_string_view(r) == reported_bssid(opt_string_view(*b)),
{
    match b {
        Some(b) => {
            let l = crate::text::ascii_lowercase(&chars_of(b.as_str()));
            if is_mac_chars(&l) {
                Some(string_from_chars(l))
            } else {
                None
            }
        },
        None => None,
    }
}

pub open spec fn core_wlan_channel(c: Option<CoreWlanChannel>) -> crate::wifi::NetworkChannel {
    match c {
        Some(c) => crate::wifi::NetworkChannel { number: clamp_u16(c.number), band: c.band },
        None => crate::wifi::NetworkChannel::none(),
    }
}

/// The network a CoreWLAN record gives, `salt` being the number of networks
/// recorded before it: none without a displayable SSID; a missing or invalid
/// BSSID is replaced by a synthetic one.
pub open spec fn core_wlan_entry(rec: CoreWlanModel, salt: usize) -> Option<NetworkModel> {
    match rec.ssid {
        None => None,
        Some(ssid) => if non_displayable(ssid) {
            None
        } else {
            let channel = core_wlan_channel(rec.channel);
            let bssid = match reported_bssid(rec.bssid) {
                Some(b) => b,
                None => synthetic(ssid, channel.number, salt),
            };
            Some(
                in_band(
                    network_of(
                        ssid,
                        bssid,
                        clamp_i32(rec.rssi),
                        channel.number,
                        core_wlan_security_name(rec.supported_security),
                        None,
                    ),
                    channel.band,
                ),
            )
        },
    }
}

pub open spec fn core_wlan_run(recs: Seq<CoreWlanModel>, nets: Seq<NetworkModel>) -> Seq<NetworkModel>
    decreases recs.len(),
{
    if recs.len() == 0 {
        nets
    } else {
        match core_wlan_entry(recs[0], nets.len() as usize) {
            Some(n) => core_wlan_run(recs.drop_first(), nets.push(n)),
            None => core_wlan_run(recs.drop_first(), nets),
        }
    }
}

pub open spec fn core_wlan_models(v: Seq<CoreWlanNetwork>) -> Seq<CoreWlanModel> {
    v.map_values(|n: CoreWlanNetwork| n@)
}

fn core_wlan_network(rec: &CoreWlanNetwork, salt: usize) -> (r: Option<WifiNetwork>)
    ensures
        r matches Some(n) ==> core_wlan_entry(rec@, salt) == Some(n@),
        r is None ==> core_wlan_entry(rec@, salt) is None,
{
    let ssid = match &rec.ssid {
        Some(s) => s,
        None => return None,
    };
    if is_non_displayable_ssid(ssid.as_str()) {
        return None;
    }
    let (number, band) = match rec.channel {
        Some(c) => (clamp_channel(c.number), c.band),
        None => (0u16, None),
    };
    let bssid = match read_bssid(&rec.bssid) {
        Some(b) => b,
        None => synthetic_bssid(ssid.as_str(), number, salt),
    };
    let name = owned(ssid.as_str());
    let n = make_network(
        name,
        bssid,
        clamp_signal(rec.rssi),
        number,
        core_wlan_security(&rec.supported_security),
        None,
    ).with_band(band);
    Some(n)
}

/// The networks of a CoreWLAN scan, with the current connection marked.
pub open spec fn core_wlan_networks(
    recs: Seq<CoreWlanModel>,
    current: Option<crate::wifi::ConnectionModel>,
) -> Seq<NetworkModel> {
    let nets = core_wlan_run(recs, seq![]);
    crate::scan::marked(nets, crate::scan::connection_choice(nets, current))
}

/// A network read from CoreWLAN: a displayable SSID, a lower-case MAC address
/// as BSSID, and the quality its signal stands for.
pub open spec fn core_wlan_row(n: NetworkModel) -> bool {
    &&& !non_displayable(n.ssid)
    &&& is_mac(n.bssid)
    &&& crate::text::lower(n.bssid) == n.bssid
    &&& n.quality == crate::wifi::quality_of_dbm(n.signal_dbm)
}

proof fn lemma_core_wlan_entry(rec: CoreWlanModel, salt: usize)
    ensures
        core_wlan_entry(rec, salt) matches Some(n) ==> core_wlan_row(n),
{
    match rec.ssid {
        Some(ssid) => {
            if !non_displayable(ssid) {
                if ssid.len() == 0 {
                    assert(crate::text::trim_start(ssid) == ssid);
                    assert(crate::text::trim_end(ssid) == ssid);
                    assert(crate::text::lower(crate::text::trim(ssid)).len() == 0);
                }
                let channel = core_wlan_channel(rec.channel);
                match reported_bssid(rec.bssid) {
                    Some(b) => {
                        crate::text::lemma_lower_idempotent(rec.bssid->0);
                    },
                    None => {
                        crate::wifi::law_synthetic_bssid_is_a_lowercase_mac(ssid, channel.number, salt);
                    },
                }
            }
        },
        None => {},
    }
}

proof fn lemma_core_wlan_run(recs: Seq<CoreWlanModel>, nets: Seq<NetworkModel>)
    requires
        forall|i: int| 0 <= i < nets.len() ==> core_wlan_row(#[trigger] nets[i]),
    ensures
        forall|i: int|
            0 <= i < core_wlan_run(recs, nets).len() ==> core_wlan_row(
                #[trigger] core_wlan_run(recs, nets)[i],
            ),
        core_wlan_run(recs, nets).len() <= nets.len() + recs.len(),
    decreases recs.len(),
{
    if recs.len() > 0 {
        lemma_core_wlan_entry(recs[0], nets.len() as usize);
        match core_wlan_entry(recs[0], nets.len() as usize) {
            Some(n) => {
                assert forall|i: int| 0 <= i < nets.push(n).len() implies core_wlan_row(
                    #[trigger] nets.push(n)[i],
                ) by {
                    if i < nets.len() {
                        assert(nets.push(n)[i] == nets[i]);
                    }
                }
                lemma_core_wlan_run(recs.drop_first(), nets.push(n));
            },
            None => {
                lemma_core_wlan_run(recs.drop_first(), nets);
            },
        }
    }
}

/// A CoreWLAN scan gives at most one network per record, each with a
/// displayable SSID, a lower-case MAC address as BSSID and the quality its
/// signal stands for; at most one of them is marked connected.
pub proof fn law_core_wlan_scan_rows(
    recs: Seq<CoreWlanModel>,
    current: Option<crate::wifi::ConnectionModel>,
)
    ensures
        core_wlan_networks(recs, current).len() <= recs.len(),
        forall|i: int|
            0 <= i < core_wlan_networks(recs, current).len() ==> core_wlan_row(
                #[trigger] core_wlan_networks(recs, current)[i],
            ),
        forall|i: int, j: int|
            0 <= i < j < core_wlan_networks(recs, current).len() ==> !(
            #[trigger] core_wlan_networks(recs, current)[i].is_connected
                && #[trigger] core_wlan_networks(recs, current)[j].is_connected),
{
    let nets = core_wlan_run(recs, seq![]);
    lemma_core_wlan_run(recs, seq![]);
    crate::scan::law_at_most_one_network_is_connected(nets, current);
    let marked = crate::scan::after_marking(nets, current);
    assert(core_wlan_networks(recs, current) == marked);
    assert forall|i: int| 0 <= i < marked.len() implies core_wlan_row(#[trigger] marked[i]) by {
        assert(crate::scan::same_but_connection(marked[i], nets[i]));
    }
}

pub fn scan_core_wlan(scanned: &Vec<CoreWlanNetwork>, current: Option<&crate::wifi::CurrentConnection>) -> (r: Vec<WifiNetwork>)
    ensures
        models(r@) == core_wlan_networks(core_wlan_models(scanned@), crate::scan::opt_current(current)),
{
    let ghost recs = core_wlan_models(scanned@);
    let mut networks: Vec<WifiNetwork> = Vec::new();
    let mut i: usize = 0;
    assert(recs.subrange(0, scanned.len() as int) =~= recs);
    assert(models(networks@) =~= seq![]);
    while i < scanned.len()
        invariant
            recs == core_wlan_models(scanned@),
            i <= scanned.len(),
            core_wlan_run(recs, seq![]) == core_wlan_run(
                recs.subrange(i as int, scanned.len() as int),
                models(networks@),
            ),
        decreases scanned.len() - i,
    {
        let ghost rest = recs.subrange(i as int, scanned.len() as int);
        assert(rest.drop_first() =~= recs.subrange(i + 1, scanned.len() as int));
        assert(rest[0] == scanned@[i as int]@);
        let ghost before = models(networks@);
        assert(before.len() == networks.len());
        match core_wlan_network(&scanned[i], networks.len()) {
            Some(n) => {
                networks.push(n);
                assert(models(networks@) =~= before.push(n@));
            },
            None => {},
        }
        i += 1;
    }
    assert(recs.subrange(i as int, scanned.len() as int) =~= seq![]);
    crate::scan::mark_current_connection_from(&mut networks, current);
    networks
}

/// The connection CoreWLAN reports for the WiFi interface: none without an
/// SSID; the BSSID kept (lower-cased) only when it is a MAC address, the
/// channel held to `u16`, the signal to `i32`.
pub open spec fn core_wlan_connection(
    ssid: Option<Seq<char>>,
    bssid: Option<Seq<char>>,
    channel: Option<i64>,
    rssi: i64,
) -> Option<crate::wifi::ConnectionModel> {
    match ssid {
        None => None,
        Some(s) => Some(
            crate::wifi::ConnectionModel {
                ssid: s,
                bssid: reported_bssid(bssid),
                channel: match channel {
                    Some(c) => Some(clamp_u16(c)),
                    None => None,
                },
                signal_dbm: Some(clamp_i32(rssi)),
            },
        ),
    }
}

pub fn current_connection_from_core_wlan(
    ssid: Option<String>,
    bssid: Option<String>,
    channel: Option<i64>,
    rssi: i64,
) -> (r: Option<crate::wifi::CurrentConnection>)
    ensures
        crate::netsh::opt_conn_view(r) == core_wlan_connection(
            opt_string_view(ssid),
            opt_string_view(bssid),
            channel,
            rssi,
        ),
{
    match ssid {
        None => None,
        Some(s) => Some(
            crate::wifi::CurrentConnection {
                ssid: s,
                bssid: read_bssid(&bssid),
                channel: match channel {
                    Some(c) => Some(clamp_channel(c)),
                    None => None,
                },
                signal_dbm: Some(clamp_signal(rssi)),
            },
        ),
    }
}

/// The current connection on macOS: what CoreWLAN reports, else the SSID that
/// `networksetup -getairportnetwork` names (when its output could be had).
pub open spec fn macos_connection(
    core_wlan: Option<crate::wifi::ConnectionModel>,
    networksetup: Option<Seq<char>>,
) -> Option<crate::wifi::ConnectionModel> {
    match core_wlan {
        Some(c) => Some(c),
        None => match networksetup {
            Some(raw) => match networksetup_ssid(raw) {
                Some(ssid) => Some(
                    crate::wifi::ConnectionModel {
                        ssid: ssid,
                        bssid: None,
                        channel: None,
                        signal_dbm: None,
                    },
                ),
                None => None,
            },
            None => None,
        },
    }
}

/// The current connection on macOS has a BSSID that is absent or a
/// lower-case MAC address; when CoreWLAN reported none, the SSID read from
/// `networksetup` is not empty.
pub proof fn law_macos_connection_shape(
    ssid: Option<Seq<char>>,
    bssid: Option<Seq<char>>,
    channel: Option<i64>,
    rssi: i64,
    networksetup: Option<Seq<char>>,
)
    ensures
        macos_connection(core_wlan_connection(ssid, bssid, channel, rssi), networksetup) matches Some(
            c,
        ) ==> crate::netsh::lowercase_mac_or_none(c.bssid) && (ssid is None ==> c.ssid.len() > 0),
{
    match bssid {
        Some(b) => crate::text::lemma_lower_idempotent(b),
        None => {},
    }
}

pub fn current_connection(
    core_wlan: Option<crate::wifi::CurrentConnection>,
    networksetup: Option<&str>,
) -> (r: Option<crate::wifi::CurrentConnection>)
    ensures
        crate::netsh::opt_conn_view(r) == macos_connection(
            crate::netsh::opt_conn_view(core_wlan),
            match networksetup {
                Some(s) => Some(s@),
                None => None,
            },
        ),
{
    match core_wlan {
        Some(c) => Some(c),
        None => match networksetup {
            Some(raw) => match parse_networksetup_current_ssid(raw) {
                Some(ssid) => Some(
                    crate::wifi::CurrentConnection {
                        ssid,
                        bssid: None,
                        channel: None,
                        signal_dbm: None,
                    },
                ),
                None => None,
            },
            None => None,
        },
    }
}

// ---------------------------------------------------------------------------
// Scan decisions
// ---------------------------------------------------------------------------

/// The location authorization of the app (`CLAuthorizationStatus`).
#[derive(Debug, Clone, Copy, PartialEq, Eq, Structural)]
pub enum LocationAuthorization {
    NotDetermined,
    Restricted,
    Denied,
    AuthorizedAlways,
    AuthorizedWhenInUse,
    Other,
}

pub open spec fn issue(
    code: ScanIssueCode,
    title: Seq<char>,
    message: Seq<char>,
    action: ScanRecoveryAction,
) -> ScanErrorModel {
    ScanErrorModel {
        code: code,
        title: title,
        message: message,
        recovery_action: Some(action),
        details: None,
    }
}

/// Whether macOS can give the app a scan with network names: location
/// services on, location access granted, a WiFi interface (`wifi_power` is
/// `None` without one) and its radio on; the first condition that fails names
/// the failure.
pub open spec fn macos_readiness(
    location_services_enabled: bool,
    authorization: LocationAuthorization,
    wifi_power: Option<bool>,
) -> Result<(), ScanErrorModel> {
    if !location_services_enabled {
        Err(
            issue(
                ScanIssueCode::LocationServicesDisabled,
                "定位服务已关闭"@,
                "macOS 需要定位服务才能向应用提供附近 WiFi 的真实名称。Poliwave 不会读取或保存您的位置。"@,
                ScanRecoveryAction::OpenLocationSettings,
            ),
        )
    } else if authorization == LocationAuthorization::NotDetermined {
        Err(
            issue(
                ScanIssueCode::LocationPermissionRequired,
                "需要定位权限"@,
                "允许 Poliwave 使用定位服务后，macOS 才会返回附近 WiFi 的真实名称。"@,
                ScanRecoveryAction::RequestLocationPermission,
            ),
        )
    } else if authorization == LocationAuthorization::Denied {
        Err(
            issue(
                ScanIssueCode::LocationPermissionDenied,
                "定位权限已被拒绝"@,
                "请在系统设置的定位服务中允许 Poliwave，然后返回重新扫描。"@,
                ScanRecoveryAction::OpenLocationSettings,
            ),
        )
    } else if authorization == LocationAuthorization::Restricted {
        Err(
            issue(
                ScanIssueCode::LocationPermissionDenied,
                "定位权限受到系统限制"@,
                "当前系统策略不允许 Poliwave 使用定位服务，请检查家长控制或设备管理策略。"@,
                ScanRecoveryAction::OpenLocationSettings,
            ),
        )
    } else if authorization == LocationAuthorization::Other {
        Err(
            issue(
                ScanIssueCode::LocationPermissionRequired,
                "无法确认定位权限"@,
                "请重新授权定位服务后再扫描。"@,
                ScanRecoveryAction::RequestLocationPermission,
            ),
        )
    } else if wifi_power is None {
        Err(
            issue(
                ScanIssueCode::AdapterUnavailable,
                "未找到 WiFi 网卡"@,
                "系统没有提供可用的 WiFi 网卡，请检查硬件或系统网络配置。"@,
                ScanRecoveryAction::Retry,
            ),
        )
    } else if wifi_power == Some(false) {
        Err(
            issue(
                ScanIssueCode::WifiDisabled,
                "WiFi 已关闭"@,
                "请先在系统设置中开启 WiFi，然后返回重新扫描。"@,
                ScanRecoveryAction::OpenWifiSettings,
            ),
        )
    } else {
        Ok(())
    }
}

pub open spec fn unit_result_view(r: Result<(), ScanError>) -> Result<(), ScanErrorModel> {
    match r {
        Ok(()) => Ok(()),
        Err(e) => Err(e@),
    }
}

fn fail(code: ScanIssueCode, title: &str, message: &str, action: ScanRecoveryAction) -> (r: Result<
    (),
    ScanError,
>)
    ensures
        unit_result_view(r) == Err::<(), ScanErrorModel>(issue(code, title@, message@, action)),
{
    Err(ScanError::new(code, owned(title), owned(message), Some(action), None))
}

pub fn ensure_macos_scan_ready(
    location_services_enabled: bool,
    authorization: LocationAuthorization,
    wifi_power: Option<bool>,
) -> (r: Result<(), ScanError>)
    ensures
        unit_result_view(r) == macos_readiness(location_services_enabled, authorization, wifi_power),
{
    if !location_services_enabled {
        return fail(
            ScanIssueCode::LocationServicesDisabled,
            "定位服务已关闭",
            "macOS 需要定位服务才能向应用提供附近 WiFi 的真实名称。Poliwave 不会读取或保存您的位置。",
            ScanRecoveryAction::OpenLocationSettings,
        );
    }
    match authorization {
        LocationAuthorization::NotDetermined => {
            return fail(
                ScanIssueCode::LocationPermissionRequired,
                "需要定位权限",
                "允许 Poliwave 使用定位服务后，macOS 才会返回附近 WiFi 的真实名称。",
                ScanRecoveryAction::RequestLocationPermission,
            );
        },
        LocationAuthorization::Denied => {
            return fail(
                ScanIssueCode::LocationPermissionDenied,
                "定位权限已被拒绝",
                "请在系统设置的定位服务中允许 Poliwave，然后返回重新扫描。",
                ScanRecoveryAction::OpenLocationSettings,
            );
        },
        LocationAuthorization::Restricted => {
            return fail(
                ScanIssueCode::LocationPermissionDenied,
                "定位权限受到系统限制",
                "当前系统策略不允许 Poliwave 使用定位服务，请检查家长控制或设备管理策略。",
                ScanRecoveryAction::OpenLocationSettings,
            );
        },
        LocationAuthorization::AuthorizedAlways | LocationAuthorization::AuthorizedWhenInUse => {},
        LocationAuthorization::Other => {
            return fail(
                ScanIssueCode::LocationPermissionRequired,
                "无法确认定位权限",
                "请重新授权定位服务后再扫描。",
                ScanRecoveryAction::RequestLocationPermission,
            );
        },
    }
    match wifi_power {
        None => fail(
            ScanIssueCode::AdapterUnavailable,
            "未找到 WiFi 网卡",
            "系统没有提供可用的 WiFi 网卡，请检查硬件或系统网络配置。",
            ScanRecoveryAction::Retry,
        ),
        Some(false) => fail(
            ScanIssueCode::WifiDisabled,
            "WiFi 已关闭",
            "请先在系统设置中开启 WiFi，然后返回重新扫描。",
            ScanRecoveryAction::OpenWifiSettings,
        ),
        Some(true) => Ok(()),
    }
}

pub open spec fn text_result_view(r: Result<String, String>) -> Result<Seq<char>, Seq<char>> {
    match r {
        Ok(s) => Ok(s@),
        Err(e) => Err(e@),
    }
}

pub open spec fn raw_result_view(r: Result<(String, String), String>) -> Result<
    (Seq<char>, Seq<char>),
    Seq<char>,
> {
    match r {
        Ok((a, b)) => Ok((a@, b@)),
        Err(e) => Err(e@),
    }
}

/// Which raw macOS output to read: `airport -s` when it ran and lists a
/// displayable network, else `system_profiler` (`None` while that has not been
/// run).
pub open spec fn macos_raw_choice(
    airport: Result<Seq<char>, Seq<char>>,
    profiler: Option<Result<Seq<char>, Seq<char>>>,
) -> Option<Result<(Seq<char>, Seq<char>), Seq<char>>> {
    if airport is Ok && airport_networks(airport->Ok_0).len() > 0 && any_displayable(
        airport_networks(airport->Ok_0),
    ) {
        Some(Ok(("airport -s"@, airport->Ok_0)))
    } else {
        match profiler {
            None => None,
            Some(Ok(raw)) => Some(Ok(("system_profiler SPAirPortDataType"@, raw))),
            Some(Err(e)) => Some(Err(e)),
        }
    }
}

pub fn scan_raw(airport: Result<String, String>, profiler: Option<Result<String, String>>) -> (r:
    Option<Result<(String, String), String>>)
    ensures
        match r {
            Some(res) => macos_raw_choice(
                text_result_view(airport),
                match profiler {
                    Some(p) => Some(text_result_view(p)),
                    None => None,
                },
            ) == Some(raw_result_view(res)),
            None => macos_raw_choice(
                text_result_view(airport),
                match profiler {
                    Some(p) => Some(text_result_view(p)),
                    None => None,
                },
            ) is None,
        },
{
    match &airport {
        Ok(raw) => {
            let networks = parse_airport(raw.as_str());
            if networks.len() > 0 && has_displayable_ssid(&networks) {
                return Some(Ok((owned("airport -s"), owned(raw.as_str()))));
            }
        },
        Err(_) => {},
    }
    match profiler {
        None => None,
        Some(Ok(raw)) => Some(Ok((owned("system_profiler SPAirPortDataType"), raw))),
        Some(Err(e)) => Some(Err(e)),
    }
}

/// The networks with a displayable SSID, in order.
pub open spec fn displayable_only(nets: Seq<NetworkModel>) -> Seq<NetworkModel>
    decreases nets.len(),
{
    if nets.len() == 0 {
        seq![]
    } else if non_displayable(nets.last().ssid) {
        displayable_only(nets.drop_last())
    } else {
        displayable_only(nets.drop_last()).push(nets.last())
    }
}

pub open spec fn core_wlan_unnamed_message() -> Seq<char> {
    "CoreWLAN 未返回可显示的 WiFi 名称，请允许应用访问定位服务。"@
}

/// The outcome of the macOS scan. CoreWLAN's networks are taken when one of
/// them is displayable; otherwise the command-line scan is needed (`None`
/// while it has not been run). Its displayable networks are taken when there
/// are any; otherwise the scan fails with CoreWLAN's error (or the note that
/// it returned no displayable name), joined with the command-line error when
/// that failed too.
pub open spec fn macos_scan_outcome(
    core: Result<Seq<NetworkModel>, Seq<char>>,
    fallback: Option<Result<(Seq<char>, Seq<char>), Seq<char>>>,
) -> Option<Result<(Seq<char>, Seq<NetworkModel>), ScanErrorModel>> {
    if core is Ok && any_displayable(core->Ok_0) {
        Some(Ok(("CoreWLAN"@, core->Ok_0)))
    } else {
        let core_error = match core {
            Ok(_) => core_wlan_unnamed_message(),
            Err(e) => e,
        };
        match fallback {
            None => None,
            Some(Err(e)) => Some(
                Err(crate::wifi::scan_failure(core_error + " 兼容扫描也失败："@ + e)),
            ),
            Some(Ok((source, raw))) => {
                let networks = displayable_only(macos_networks(raw));
                if networks.len() == 0 {
                    Some(Err(crate::wifi::scan_failure(core_error)))
                } else {
                    Some(Ok((source, networks)))
                }
            },
        }
    }
}

pub open spec fn networks_result_view(r: Result<Vec<WifiNetwork>, String>) -> Result<
    Seq<NetworkModel>,
    Seq<char>,
> {
    match r {
        Ok(n) => Ok(models(n@)),
        Err(e) => Err(e@),
    }
}

pub open spec fn scan_outcome_view(r: Result<(String, Vec<WifiNetwork>), ScanError>) -> Result<
    (Seq<char>, Seq<NetworkModel>),
    ScanErrorModel,
> {
    match r {
        Ok((s, n)) => Ok((s@, models(n@))),
        Err(e) => Err(e@),
    }
}

fn keep_displayable(networks: Vec<WifiNetwork>) -> (r: Vec<WifiNetwork>)
    ensures
        models(r@) == displayable_only(models(networks@)),
{
    let ghost orig = models(networks@);
    let mut rest = networks;
    let mut kept: Vec<WifiNetwork> = Vec::new();
    let ghost mut done: int = 0;
    assert(orig.subrange(0, 0) =~= seq![]);
    assert(models(rest@) =~= orig.subrange(0, orig.len() as int));
    while rest.len() > 0
        invariant
            0 <= done <= orig.len(),
            rest.len() + done == orig.len(),
            models(rest@) == orig.subrange(done, orig.len() as int),
            models(kept@) == displayable_only(orig.subrange(0, done)),
        decreases rest.len(),
    {
        let ghost rest_vec = rest@;
        let ghost rest_before = models(rest@);
        let n = rest.remove(0);
        assert(rest@ =~= rest_vec.subrange(1, rest_vec.len() as int));
        assert(models(rest@) =~= rest_before.subrange(1, rest_before.len() as int));
        assert(models(rest@) =~= orig.subrange(done + 1, orig.len() as int));
        assert(n@ == rest_before[0]);
        assert(n@ == orig[done]);
        assert(orig.subrange(0, done + 1).drop_last() =~= orig.subrange(0, done));
        let ghost before = models(kept@);
        if !is_non_displayable_ssid(n.ssid.as_str()) {
            kept.push(n);
            assert(models(kept@) =~= before.push(n@));
        }
        proof {
            done = done + 1;
        }
    }
    assert(orig.subrange(0, done) =~= orig);
    kept
}

pub fn scan_macos(
    core: Result<Vec<WifiNetwork>, String>,
    fallback: Option<Result<(String, String), String>>,
) -> (r: Option<Result<(String, Vec<WifiNetwork>), ScanError>>)
    ensures
        match r {
            Some(res) => macos_scan_outcome(
                networks_result_view(core),
                match fallback {
                    Some(f) => Some(raw_result_view(f)),
                    None => None,
                },
            ) == Some(scan_outcome_view(res)),
            None => macos_scan_outcome(
                networks_result_view(core),
                match fallback {
                    Some(f) => Some(raw_result_view(f)),
                    None => None,
                },
            ) is None,
        },
{
    let core_error: String = match core {
        Ok(networks) => {
            if has_displayable_ssid(&networks) {
                return Some(Ok((owned("CoreWLAN"), networks)));
            }
            owned("CoreWLAN 未返回可显示的 WiFi 名称，请允许应用访问定位服务。")
        },
        Err(e) => e,
    };
    match fallback {
        None => None,
        Some(Err(e)) => {
            let mut details = chars_of(core_error.as_str());
            crate::text::append_chars(&mut details, &chars_of(" 兼容扫描也失败："));
            crate::text::append_chars(&mut details, &chars_of(e.as_str()));
            Some(Err(ScanError::scan_failed(string_from_chars(details))))
        },
        Some(Ok((source, raw))) => {
            let networks = keep_displayable(parse_by_platform(raw.as_str()));
            if networks.len() == 0 {
                Some(Err(ScanError::scan_failed(core_error)))
            } else {
                Some(Ok((source, networks)))
            }
        },
    }
}

} // verus!
