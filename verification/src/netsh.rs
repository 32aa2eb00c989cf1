//! Windows: the output of `netsh wlan show networks mode=bssid`,
//! `netsh wlan show networks` and `netsh wlan show interfaces`, in English or
//! Chinese, and the errors Windows reports instead of a scan.
use vstd::prelude::*;
use crate::text::{
    contains, holds,
    after_colon, append_chars, begins, chars_of, copy_range, first_index, index_of, is, lines,
    lower, owned, parse_uint, parse_unsigned, starts_with, string_from_chars, strip_end_all,
    text_lines, trim, trim_chars, trim_end_matches, value_after_colon, views, ascii_lowercase,
};
use crate::macos::{raw_result_view, scan_outcome_view, text_result_view};
use crate::wifi::{
    lemma_mac_lower, law_synthetic_bssid_is_a_lowercase_mac, lemma_mac_nonempty,
    channel_band, channel_number, dbm_of_quality, in_band, is_mac, is_mac_chars, make_network,
    models, netsh_band_field, network_of, parse_channel_band_chars, parse_channel_chars,
    quality_to_dbm, synthetic, synthetic_bssid, to_lowercase, unicode_lowercase,
    is_netsh_band_field_chars, ConnectionModel, CurrentConnection, NetworkChannel, NetworkModel,
    WifiBand, WifiNetwork, ScanError, ScanErrorModel, ScanIssueCode, ScanRecoveryAction, scan_failure,
};

verus! {

// ---------------------------------------------------------------------------
// Fields of a trimmed line
// ---------------------------------------------------------------------------

/// The line holds a `:`.
pub open spec fn has_colon(t: Seq<char>) -> bool {
    first_index(t, ':') is Some
}

/// The value after the colon, or `default` when the line has no colon.
pub open spec fn field_or(t: Seq<char>, default: Seq<char>) -> Seq<char> {
    match after_colon(t) {
        Some(v) => v,
        None => default,
    }
}

/// A percentage field such as `Signal : 86%`.
pub open spec fn quality_field(t: Seq<char>) -> Option<u8> {
    match after_colon(t) {
        Some(v) => match parse_unsigned(trim(strip_end_all(v, '%')), 255) {
            Some(q) => Some(q as u8),
            None => None,
        },
        None => None,
    }
}

/// A channel field; 0 when it holds no channel number.
pub open spec fn channel_field(t: Seq<char>) -> u16 {
    match after_colon(t) {
        Some(v) => match channel_number(v) {
            Some(n) => n,
            None => 0,
        },
        None => 0,
    }
}

/// A band field such as `Band : 6 GHz`.
pub open spec fn band_field(t: Seq<char>) -> Option<WifiBand> {
    match after_colon(t) {
        Some(v) => channel_band(v),
        None => None,
    }
}

fn dup(s: &Vec<char>) -> (r: Vec<char>)
    ensures
        r@ == s@,
{
    copy_range(s, 0, s.len())
}

fn colon(t: &Vec<char>) -> (b: bool)
    ensures
        b == has_colon(t@),
{
    index_of(t, ':').is_some()
}

fn read_field_or(t: &Vec<char>, default: &str) -> (r: Vec<char>)
    ensures
        r@ == field_or(t@, default@),
{
    match value_after_colon(t) {
        Some(v) => v,
        None => chars_of(default),
    }
}

fn read_quality(t: &Vec<char>) -> (r: Option<u8>)
    ensures
        r == quality_field(t@),
{
    match value_after_colon(t) {
        Some(v) => {
            let w = trim_chars(&trim_end_matches(&v, '%'));
            match parse_uint(&w, 255) {
                Some(q) => Some(q as u8),
                None => None,
            }
        },
        None => None,
    }
}

fn read_channel(t: &Vec<char>) -> (r: u16)
    ensures
        r == channel_field(t@),
{
    match value_after_colon(t) {
        Some(v) => match parse_channel_chars(&v) {
            Some(n) => n,
            None => 0,
        },
        None => 0,
    }
}

fn read_band(t: &Vec<char>) -> (r: Option<WifiBand>)
    ensures
        r == band_field(t@),
{
    match value_after_colon(t) {
        Some(v) => parse_channel_band_chars(&v),
        None => None,
    }
}

/// The Unicode lower case of a text, through `str::to_lowercase`.
fn lowercased(v: Vec<char>) -> (r: Vec<char>)
    ensures
        r@ == unicode_lowercase(v@),
        lower(r@) == r@,
{
    let s = string_from_chars(v);
    let l = to_lowercase(s.as_str());
    chars_of(l.as_str())
}

// ---------------------------------------------------------------------------
// Line kinds
// ---------------------------------------------------------------------------

pub open spec fn ssid_header(t: Seq<char>) -> bool {
    starts_with(t, "SSID "@) && has_colon(t)
}

pub open spec fn bssid_header(t: Seq<char>) -> bool {
    starts_with(t, "BSSID "@) && has_colon(t)
}

pub open spec fn auth_line(t: Seq<char>) -> bool {
    starts_with(t, "Authentication"@) || starts_with(t, "身份验证"@)
}

pub open spec fn signal_line(t: Seq<char>) -> bool {
    starts_with(t, "Signal"@) || starts_with(t, "信号"@)
}

pub open spec fn channel_line(t: Seq<char>) -> bool {
    starts_with(t, "Channel"@) || starts_with(t, "频道"@) || starts_with(t, "信道"@)
}

pub open spec fn name_header(t: Seq<char>) -> bool {
    (starts_with(t, "Name"@) || starts_with(t, "名称"@)) && has_colon(t)
}

pub open spec fn state_line(t: Seq<char>) -> bool {
    starts_with(t, "State"@) || starts_with(t, "状态"@)
}

/// An `SSID` line of `show interfaces` (not a `BSSID` line).
pub open spec fn ssid_line(t: Seq<char>) -> bool {
    starts_with(t, "SSID"@) && !starts_with(t, "BSSID"@)
}

fn is_ssid_header(t: &Vec<char>) -> (b: bool)
    ensures
        b == ssid_header(t@),
{
    begins(t, "SSID ") && colon(t)
}

fn is_bssid_header(t: &Vec<char>) -> (b: bool)
    ensures
        b == bssid_header(t@),
{
    begins(t, "BSSID ") && colon(t)
}

fn is_auth_line(t: &Vec<char>) -> (b: bool)
    ensures
        b == auth_line(t@),
{
    begins(t, "Authentication") || begins(t, "身份验证")
}

fn is_signal_line(t: &Vec<char>) -> (b: bool)
    ensures
        b == signal_line(t@),
{
    begins(t, "Signal") || begins(t, "信号")
}

fn is_channel_line(t: &Vec<char>) -> (b: bool)
    ensures
        b == channel_line(t@),
{
    begins(t, "Channel") || begins(t, "频道") || begins(t, "信道")
}

fn is_name_header(t: &Vec<char>) -> (b: bool)
    ensures
        b == name_header(t@),
{
    (begins(t, "Name") || begins(t, "名称")) && colon(t)
}

fn is_state_line(t: &Vec<char>) -> (b: bool)
    ensures
        b == state_line(t@),
{
    begins(t, "State") || begins(t, "状态")
}

fn is_ssid_line(t: &Vec<char>) -> (b: bool)
    ensures
        b == ssid_line(t@),
{
    begins(t, "SSID") && !begins(t, "BSSID")
}

/// An interface state that means connected: `connected` in any ASCII case,
/// or `已连接`.
pub open spec fn connected_state(value: Seq<char>) -> bool {
    lower(trim(value)) == "connected"@ || trim(value) == "已连接"@
}

fn connected_state_chars(value: &Vec<char>) -> (b: bool)
    ensures
        b == connected_state(value@),
{
    let t = trim_chars(value);
    let n = ascii_lowercase(&t);
    is(&n, "connected") || is(&t, "已连接")
}

pub fn is_connected_netsh_state(value: &str) -> (b: bool)
    ensures
        b == connected_state(value@),
{
    connected_state_chars(&chars_of(value))
}

/// The connected flag a `State` line sets.
pub open spec fn state_field(t: Seq<char>) -> bool {
    match after_colon(t) {
        Some(v) => connected_state(v),
        None => false,
    }
}

fn read_state(t: &Vec<char>) -> (b: bool)
    ensures
        b == state_field(t@),
{
    match value_after_colon(t) {
        Some(v) => connected_state_chars(&v),
        None => false,
    }
}

// ---------------------------------------------------------------------------
// Recording a network
// ---------------------------------------------------------------------------

/// The network a block of `netsh` fields describes: none without an SSID or a
/// valid BSSID; otherwise the signal follows from the quality (0 when none was
/// read) and an explicit band decides the frequency.
pub open spec fn netsh_network(
    ssid: Seq<char>,
    security: Seq<char>,
    bssid: Seq<char>,
    quality: Option<u8>,
    channel: NetworkChannel,
) -> Option<NetworkModel> {
    if ssid.len() == 0 || !is_mac(bssid) {
        None
    } else {
        let q: u8 = match quality {
            Some(q) => q,
            None => 0,
        };
        Some(
            in_band(
                network_of(ssid, bssid, dbm_of_quality(q), channel.number, security, Some(q)),
                channel.band,
            ),
        )
    }
}

pub open spec fn push_opt(networks: Seq<NetworkModel>, n: Option<NetworkModel>) -> Seq<
    NetworkModel,
> {
    match n {
        Some(n) => networks.push(n),
        None => networks,
    }
}

pub fn push_netsh_network(
    networks: &mut Vec<WifiNetwork>,
    ssid: &Vec<char>,
    security: &Vec<char>,
    bssid: &Vec<char>,
    quality: Option<u8>,
    channel: NetworkChannel,
)
    ensures
        models(final(networks)@) == push_opt(
            models(old(networks)@),
            netsh_network(ssid@, security@, bssid@, quality, channel),
        ),
{
    if ssid.len() == 0 || !is_mac_chars(bssid) {
        return ;
    }
    let q: u8 = match quality {
        Some(q) => q,
        None => 0,
    };
    let signal_dbm = quality_to_dbm(q);
    let n = make_network(
        string_from_chars(dup(ssid)),
        string_from_chars(dup(bssid)),
        signal_dbm,
        channel.number,
        string_from_chars(dup(security)),
        Some(q),
    ).with_band(channel.band);
    let ghost before = models(networks@);
    networks.push(n);
    assert(models(networks@) =~= before.push(n@));
}

/// A row that a `netsh` reader records: named, with a lower-case MAC address
/// as BSSID, and the signal that its quality stands for.
pub open spec fn netsh_row(n: NetworkModel) -> bool {
    &&& n.ssid.len() > 0
    &&& is_mac(n.bssid)
    &&& lower(n.bssid) == n.bssid
    &&& n.signal_dbm == dbm_of_quality(n.quality)
}

/// Every row is a `netsh` row, connected or not as `connected` says.
pub open spec fn netsh_rows(nets: Seq<NetworkModel>, connected: bool) -> bool {
    forall|i: int| 0 <= i < nets.len() ==> netsh_row(#[trigger] nets[i]) && nets[i].is_connected == connected
}

/// How many of the lines, trimmed, `p` holds of.
pub open spec fn count_lines(ls: Seq<Seq<char>>, p: spec_fn(Seq<char>) -> bool) -> nat
    decreases ls.len(),
{
    if ls.len() == 0 {
        0
    } else {
        count_lines(ls.drop_last(), p) + if p(trim(ls.last())) {
            1nat
        } else {
            0nat
        }
    }
}

/// `BSSID n :` lines.
pub open spec fn bssid_lines() -> spec_fn(Seq<char>) -> bool {
    |t: Seq<char>| bssid_header(t)
}

/// `SSID n :` lines.
pub open spec fn ssid_lines() -> spec_fn(Seq<char>) -> bool {
    |t: Seq<char>| ssid_header(t)
}

/// `State` lines that say connected.
pub open spec fn connected_lines() -> spec_fn(Seq<char>) -> bool {
    |t: Seq<char>| state_line(t) && state_field(t)
}

proof fn lemma_netsh_network_row(
    ssid: Seq<char>,
    security: Seq<char>,
    bssid: Seq<char>,
    quality: Option<u8>,
    channel: NetworkChannel,
)
    requires
        lower(bssid) == bssid,
    ensures
        netsh_network(ssid, security, bssid, quality, channel) matches Some(n) ==> netsh_row(n)
            && !n.is_connected && bssid.len() > 0,
{
    if netsh_network(ssid, security, bssid, quality, channel) is Some {
        lemma_mac_nonempty(bssid);
    }
}

proof fn lemma_count_step(ls: Seq<Seq<char>>, i: int, p: spec_fn(Seq<char>) -> bool)
    requires
        0 <= i < ls.len(),
    ensures
        count_lines(ls.subrange(0, i + 1), p) == count_lines(ls.subrange(0, i), p) + if p(
            trim(ls[i]),
        ) {
            1nat
        } else {
            0nat
        },
{
    assert(ls.subrange(0, i + 1).drop_last() =~= ls.subrange(0, i));
}

// ---------------------------------------------------------------------------
// `show networks mode=bssid`
// ---------------------------------------------------------------------------

/// What has been read of a BSSID listing so far.
pub struct BssidScan {
    pub networks: Seq<NetworkModel>,
    pub ssid: Seq<char>,
    pub security: Seq<char>,
    pub bssid: Seq<char>,
    pub quality: Option<u8>,
    pub channel: NetworkChannel,
}

pub open spec fn bssid_scan_start() -> BssidScan {
    BssidScan {
        networks: seq![],
        ssid: seq![],
        security: "Unknown"@,
        bssid: seq![],
        quality: None,
        channel: NetworkChannel::none(),
    }
}

pub open spec fn bssid_scan_pending(st: BssidScan) -> Option<NetworkModel> {
    netsh_network(st.ssid, st.security, st.bssid, st.quality, st.channel)
}

/// One line of a BSSID listing: an `SSID n :` line records the network read
/// so far and starts a new SSID; a `BSSID n :` line records it and starts a new
/// access point of the same SSID; the other fields fill in the current entry.
/// The security stays until the next `Authentication` line.
pub open spec fn bssid_scan_step(st: BssidScan, line: Seq<char>) -> BssidScan {
    let t = trim(line);
    if ssid_header(t) {
        BssidScan {
            networks: push_opt(st.networks, bssid_scan_pending(st)),
            ssid: field_or(t, seq![]),
            security: st.security,
            bssid: seq![],
            quality: None,
            channel: NetworkChannel::none(),
        }
    } else if auth_line(t) {
        BssidScan { security: field_or(t, "Unknown"@), ..st }
    } else if bssid_header(t) {
        BssidScan {
            networks: push_opt(st.networks, bssid_scan_pending(st)),
            bssid: unicode_lowercase(field_or(t, seq![])),
            quality: None,
            channel: NetworkChannel::none(),
            ..st
        }
    } else if signal_line(t) {
        BssidScan { quality: quality_field(t), ..st }
    } else if channel_line(t) {
        BssidScan { channel: NetworkChannel { number: channel_field(t), ..st.channel }, ..st }
    } else if netsh_band_field(t) {
        BssidScan { channel: NetworkChannel { band: band_field(t), ..st.channel }, ..st }
    } else {
        st
    }
}

pub open spec fn bssid_scan_run(ls: Seq<Seq<char>>, st: BssidScan) -> Seq<NetworkModel>
    decreases ls.len(),
{
    if ls.len() == 0 {
        push_opt(st.networks, bssid_scan_pending(st))
    } else {
        bssid_scan_run(ls.drop_first(), bssid_scan_step(st, ls[0]))
    }
}

/// The networks of a `netsh wlan show networks mode=bssid` listing.
pub open spec fn netsh_bssid_networks(raw: Seq<char>) -> Seq<NetworkModel> {
    bssid_scan_run(lines(raw), bssid_scan_start())
}

pub fn parse_netsh(raw: &str) -> (r: Vec<WifiNetwork>)
    ensures
        models(r@) == netsh_bssid_networks(raw@),
        netsh_rows(models(r@), false),
        r.len() <= count_lines(lines(raw@), bssid_lines()),
{
    let ls = text_lines(raw);
    let mut networks: Vec<WifiNetwork> = Vec::new();
    let mut ssid: Vec<char> = Vec::new();
    let mut security: Vec<char> = chars_of("Unknown");
    let mut bssid: Vec<char> = Vec::new();
    let mut quality: Option<u8> = None;
    let mut channel = NetworkChannel::unknown();
    let mut i: usize = 0;
    assert(views(ls@).subrange(0, ls.len() as int) =~= views(ls@));
    assert(models(networks@) =~= seq![]);
    assert(ssid@ =~= seq![]);
    assert(bssid@ =~= seq![]);
    assert(lower(bssid@) =~= bssid@);
    assert(views(ls@).subrange(0, 0) =~= seq![]);
    while i < ls.len()
        invariant
            i <= ls.len(),
            views(ls@) == lines(raw@),
            netsh_bssid_networks(raw@) == bssid_scan_run(
                views(ls@).subrange(i as int, ls.len() as int),
                BssidScan {
                    networks: models(networks@),
                    ssid: ssid@,
                    security: security@,
                    bssid: bssid@,
                    quality: quality,
                    channel: channel,
                },
            ),
            netsh_rows(models(networks@), false),
            lower(bssid@) == bssid@,
            networks.len() + (if bssid.len() > 0 {
                1nat
            } else {
                0nat
            }) <= count_lines(views(ls@).subrange(0, i as int), bssid_lines()),
        decreases ls.len() - i,
    {
        let ghost rest = views(ls@).subrange(i as int, ls.len() as int);
        assert(rest.drop_first() =~= views(ls@).subrange(i + 1, ls.len() as int));
        assert(rest[0] == ls@[i as int]@);
        proof {
            lemma_count_step(views(ls@), i as int, bssid_lines());
            lemma_netsh_network_row(ssid@, security@, bssid@, quality, channel);
        }
        let ghost before = models(networks@);
        let t = trim_chars(&ls[i]);
        assert(t@ == trim(views(ls@)[i as int]));
        assert(bssid_lines()(t@) == bssid_header(t@));
        if is_ssid_header(&t) {
            let ghost n0 = networks.len();
            let ghost had = bssid.len() > 0;
            push_netsh_network(&mut networks, &ssid, &security, &bssid, quality, channel);
            assert(models(networks@).len() == networks.len());
            assert(networks.len() <= n0 + (if had {
                1nat
            } else {
                0nat
            }));
            bssid = Vec::new();
            quality = None;
            channel = NetworkChannel::unknown();
            ssid = read_field_or(&t, "");
            proof {
                assert(bssid@ =~= seq![]);
                assert(lower(bssid@) =~= bssid@);
                assert(""@ =~= Seq::<char>::empty()) by {
                    reveal_strlit("");
                }
            }
        } else if is_auth_line(&t) {
            security = read_field_or(&t, "Unknown");
        } else if is_bssid_header(&t) {
            let ghost n0 = networks.len();
            let ghost had = bssid.len() > 0;
            push_netsh_network(&mut networks, &ssid, &security, &bssid, quality, channel);
            assert(models(networks@).len() == networks.len());
            assert(networks.len() <= n0 + (if had {
                1nat
            } else {
                0nat
            }));
            let v = read_field_or(&t, "");
            bssid = lowercased(v);
            quality = None;
            channel = NetworkChannel::unknown();
            proof {
                assert(""@ =~= Seq::<char>::empty()) by {
                    reveal_strlit("");
                }
            }
        } else if is_signal_line(&t) {
            quality = read_quality(&t);
        } else if is_channel_line(&t) {
            channel.number = read_channel(&t);
        } else if is_netsh_band_field_chars(&t) {
            channel.band = read_band(&t);
        }
        i += 1;
    }
    proof {
        lemma_netsh_network_row(ssid@, security@, bssid@, quality, channel);
    }
    push_netsh_network(&mut networks, &ssid, &security, &bssid, quality, channel);
    networks
}

// ---------------------------------------------------------------------------
// `show interfaces`
// ---------------------------------------------------------------------------

/// What has been read of an interface listing so far.
pub struct InterfaceScan {
    pub networks: Seq<NetworkModel>,
    pub ssid: Seq<char>,
    pub security: Seq<char>,
    pub bssid: Seq<char>,
    pub quality: Option<u8>,
    pub channel: NetworkChannel,
    pub connected: bool,
}

pub open spec fn interface_scan_start() -> InterfaceScan {
    InterfaceScan {
        networks: seq![],
        ssid: seq![],
        security: "Unknown"@,
        bssid: seq![],
        quality: None,
        channel: NetworkChannel::none(),
        connected: false,
    }
}

/// The network of a connected interface, marked connected; nothing for an
/// interface that is not connected.
pub open spec fn interface_network(st: InterfaceScan) -> Option<NetworkModel> {
    if !st.connected {
        None
    } else {
        match netsh_network(st.ssid, st.security, st.bssid, st.quality, st.channel) {
            Some(n) => Some(NetworkModel { is_connected: true, ..n }),
            None => None,
        }
    }
}

/// One line of an interface listing: a `Name :` line records the interface
/// read so far and starts a new one with every field reset.
pub open spec fn interface_scan_step(st: InterfaceScan, line: Seq<char>) -> InterfaceScan {
    let t = trim(line);
    if name_header(t) {
        InterfaceScan {
            networks: push_opt(st.networks, interface_network(st)),
            ..interface_scan_start()
        }
    } else if state_line(t) {
        InterfaceScan { connected: state_field(t), ..st }
    } else if ssid_line(t) {
        InterfaceScan { ssid: field_or(t, seq![]), ..st }
    } else if auth_line(t) {
        InterfaceScan { security: field_or(t, "Unknown"@), ..st }
    } else if starts_with(t, "BSSID"@) {
        InterfaceScan { bssid: unicode_lowercase(field_or(t, seq![])), ..st }
    } else if signal_line(t) {
        InterfaceScan { quality: quality_field(t), ..st }
    } else if channel_line(t) {
        InterfaceScan { channel: NetworkChannel { number: channel_field(t), ..st.channel }, ..st }
    } else if netsh_band_field(t) {
        InterfaceScan { channel: NetworkChannel { band: band_field(t), ..st.channel }, ..st }
    } else {
        st
    }
}

pub open spec fn interface_scan_run(ls: Seq<Seq<char>>, st: InterfaceScan) -> Seq<NetworkModel>
    decreases ls.len(),
{
    if ls.len() == 0 {
        push_opt(st.networks, interface_network(st))
    } else {
        interface_scan_run(ls.drop_first(), interface_scan_step(st, ls[0]))
    }
}

/// The connected networks of a `netsh wlan show interfaces` listing.
pub open spec fn netsh_interface_networks(raw: Seq<char>) -> Seq<NetworkModel> {
    interface_scan_run(lines(raw), interface_scan_start())
}

pub fn push_netsh_interface_network(
    networks: &mut Vec<WifiNetwork>,
    ssid: &Vec<char>,
    security: &Vec<char>,
    bssid: &Vec<char>,
    quality: Option<u8>,
    channel: NetworkChannel,
    is_connected: bool,
)
    ensures
        models(final(networks)@) == push_opt(
            models(old(networks)@),
            interface_network(
                InterfaceScan {
                    networks: models(old(networks)@),
                    ssid: ssid@,
                    security: security@,
                    bssid: bssid@,
                    quality: quality,
                    channel: channel,
                    connected: is_connected,
                },
            ),
        ),
{
    if !is_connected {
        return ;
    }
    let before = networks.len();
    let ghost old_models = models(networks@);
    push_netsh_network(networks, ssid, security, bssid, quality, channel);
    if networks.len() > before {
        let ghost pushed = networks@;
        assert(models(networks@).len() == networks@.len());
        assert(old_models.len() == before);
        assert(netsh_network(ssid@, security@, bssid@, quality, channel) is Some);
        let ghost m = netsh_network(ssid@, security@, bssid@, quality, channel)->0;
        assert(models(pushed) == old_models.push(m));
        match networks.pop() {
            Some(mut n) => {
                assert(networks@ =~= pushed.drop_last());
                assert(models(networks@) =~= models(pushed).drop_last());
                assert(models(pushed).last() == n@);
                assert(models(networks@) =~= old_models);
                n.is_connected = true;
                networks.push(n);
                assert(models(networks@) =~= old_models.push(n@));
            },
            None => {},
        }
    }
}

pub fn parse_netsh_interfaces(raw: &str) -> (r: Vec<WifiNetwork>)
    ensures
        models(r@) == netsh_interface_networks(raw@),
        netsh_rows(models(r@), true),
        r.len() <= count_lines(lines(raw@), connected_lines()),
{
    let ls = text_lines(raw);
    let mut networks: Vec<WifiNetwork> = Vec::new();
    let mut ssid: Vec<char> = Vec::new();
    let mut security: Vec<char> = chars_of("Unknown");
    let mut bssid: Vec<char> = Vec::new();
    let mut quality: Option<u8> = None;
    let mut channel = NetworkChannel::unknown();
    let mut is_connected = false;
    let mut i: usize = 0;
    assert(views(ls@).subrange(0, ls.len() as int) =~= views(ls@));
    assert(models(networks@) =~= seq![]);
    assert(ssid@ =~= seq![]);
    assert(bssid@ =~= seq![]);
    assert(lower(bssid@) =~= bssid@);
    assert(views(ls@).subrange(0, 0) =~= seq![]);
    while i < ls.len()
        invariant
            i <= ls.len(),
            views(ls@) == lines(raw@),
            netsh_interface_networks(raw@) == interface_scan_run(
                views(ls@).subrange(i as int, ls.len() as int),
                InterfaceScan {
                    networks: models(networks@),
                    ssid: ssid@,
                    security: security@,
                    bssid: bssid@,
                    quality: quality,
                    channel: channel,
                    connected: is_connected,
                },
            ),
            netsh_rows(models(networks@), true),
            lower(bssid@) == bssid@,
            networks.len() + (if is_connected {
                1nat
            } else {
                0nat
            }) <= count_lines(views(ls@).subrange(0, i as int), connected_lines()),
        decreases ls.len() - i,
    {
        proof {
            lemma_count_step(views(ls@), i as int, connected_lines());
            lemma_netsh_network_row(ssid@, security@, bssid@, quality, channel);
        }
        let ghost rest = views(ls@).subrange(i as int, ls.len() as int);
        assert(rest.drop_first() =~= views(ls@).subrange(i + 1, ls.len() as int));
        assert(rest[0] == ls@[i as int]@);
        let t = trim_chars(&ls[i]);
        assert(t@ == trim(views(ls@)[i as int]));
        if is_name_header(&t) {
            let ghost was = is_connected;
            let ghost n0 = networks.len();
            push_netsh_interface_network(
                &mut networks,
                &ssid,
                &security,
                &bssid,
                quality,
                channel,
                is_connected,
            );
            assert(models(networks@).len() == networks.len());
            assert(networks.len() <= n0 + (if was {
                1nat
            } else {
                0nat
            }));
            ssid = Vec::new();
            security = chars_of("Unknown");
            bssid = Vec::new();
            quality = None;
            channel = NetworkChannel::unknown();
            is_connected = false;
            assert(ssid@ =~= seq![]);
            assert(bssid@ =~= seq![]);
            assert(lower(bssid@) =~= bssid@);
        } else if is_state_line(&t) {
            is_connected = read_state(&t);
            assert(connected_lines()(t@) == (state_line(t@) && state_field(t@)));
        } else if is_ssid_line(&t) {
            ssid = read_field_or(&t, "");
            proof {
                assert(""@ =~= Seq::<char>::empty()) by {
                    reveal_strlit("");
                }
            }
        } else if is_auth_line(&t) {
            security = read_field_or(&t, "Unknown");
        } else if begins(&t, "BSSID") {
            let v = read_field_or(&t, "");
            bssid = lowercased(v);
            proof {
                assert(""@ =~= Seq::<char>::empty()) by {
                    reveal_strlit("");
                }
            }
        } else if is_signal_line(&t) {
            quality = read_quality(&t);
        } else if is_channel_line(&t) {
            channel.number = read_channel(&t);
        } else if is_netsh_band_field_chars(&t) {
            channel.band = read_band(&t);
        }
        i += 1;
    }
    proof {
        lemma_netsh_network_row(ssid@, security@, bssid@, quality, channel);
    }
    push_netsh_interface_network(
        &mut networks,
        &ssid,
        &security,
        &bssid,
        quality,
        channel,
        is_connected,
    );
    networks
}

// ---------------------------------------------------------------------------
// `show networks` without BSSIDs
// ---------------------------------------------------------------------------

/// What has been read of an SSID-only listing so far; `salt` counts the SSID
/// headers seen.
pub struct SsidScan {
    pub networks: Seq<NetworkModel>,
    pub ssid: Seq<char>,
    pub security: Seq<char>,
    pub has_bssid: bool,
    pub salt: usize,
}

pub open spec fn ssid_scan_start() -> SsidScan {
    SsidScan { networks: seq![], ssid: seq![], security: "Unknown"@, has_bssid: false, salt: 0 }
}

/// An SSID listed without BSSID: no channel, no signal (-100 dBm, quality 0)
/// and a synthetic BSSID; none when the SSID is empty or the block did list a
/// BSSID.
pub open spec fn ssid_only_network(st: SsidScan) -> Option<NetworkModel> {
    if st.ssid.len() == 0 || st.has_bssid {
        None
    } else {
        Some(network_of(st.ssid, synthetic(st.ssid, 0, st.salt), -100i32, 0, st.security, Some(0u8)))
    }
}

pub open spec fn ssid_scan_step(st: SsidScan, line: Seq<char>) -> SsidScan {
    let t = trim(line);
    if ssid_header(t) {
        SsidScan {
            networks: push_opt(st.networks, ssid_only_network(st)),
            ssid: field_or(t, seq![]),
            security: "Unknown"@,
            has_bssid: false,
            salt: (st.salt + 1) as usize,
        }
    } else if bssid_header(t) {
        SsidScan { has_bssid: true, ..st }
    } else if auth_line(t) {
        SsidScan { security: field_or(t, "Unknown"@), ..st }
    } else {
        st
    }
}

pub open spec fn ssid_scan_run(ls: Seq<Seq<char>>, st: SsidScan) -> Seq<NetworkModel>
    decreases ls.len(),
{
    if ls.len() == 0 {
        push_opt(st.networks, ssid_only_network(st))
    } else {
        ssid_scan_run(ls.drop_first(), ssid_scan_step(st, ls[0]))
    }
}

/// The networks of a `netsh wlan show networks` listing without BSSIDs.
pub open spec fn netsh_ssid_only_networks(raw: Seq<char>) -> Seq<NetworkModel> {
    ssid_scan_run(lines(raw), ssid_scan_start())
}

pub fn push_netsh_ssid_only_network(
    networks: &mut Vec<WifiNetwork>,
    ssid: &Vec<char>,
    security: &Vec<char>,
    has_bssid: bool,
    salt: usize,
)
    ensures
        models(final(networks)@) == push_opt(
            models(old(networks)@),
            ssid_only_network(
                SsidScan {
                    networks: models(old(networks)@),
                    ssid: ssid@,
                    security: security@,
                    has_bssid: has_bssid,
                    salt: salt,
                },
            ),
        ),
{
    if ssid.len() == 0 || has_bssid {
        return ;
    }
    let name = string_from_chars(dup(ssid));
    let bssid = synthetic_bssid(name.as_str(), 0, salt);
    let n = make_network(name, bssid, -100, 0, string_from_chars(dup(security)), Some(0));
    let ghost before = models(networks@);
    networks.push(n);
    assert(models(networks@) =~= before.push(n@));
}

/// A row of an SSID-only listing: named, with no channel, signal or quality
/// known (no band, -100 dBm), not connected, and a synthetic lower-case MAC
/// address as BSSID.
pub open spec fn ssid_only_row(n: NetworkModel) -> bool {
    &&& n.ssid.len() > 0
    &&& n.channel == 0
    &&& n.quality == 0
    &&& n.signal_dbm == -100
    &&& n.frequency_mhz == 0
    &&& n.band == "Unknown"@
    &&& is_mac(n.bssid)
    &&& lower(n.bssid) == n.bssid
    &&& !n.is_connected
}

proof fn lemma_ssid_only_row(st: SsidScan)
    ensures
        ssid_only_network(st) matches Some(n) ==> ssid_only_row(n),
{
    if ssid_only_network(st) is Some {
        law_synthetic_bssid_is_a_lowercase_mac(st.ssid, 0, st.salt);
    }
}

pub fn parse_netsh_ssid_only(raw: &str) -> (r: Vec<WifiNetwork>)
    ensures
        models(r@) == netsh_ssid_only_networks(raw@),
        forall|i: int| 0 <= i < r.len() ==> ssid_only_row(#[trigger] models(r@)[i]),
        r.len() <= count_lines(lines(raw@), ssid_lines()),
{
    let ls = text_lines(raw);
    let mut networks: Vec<WifiNetwork> = Vec::new();
    let mut ssid: Vec<char> = Vec::new();
    let mut security: Vec<char> = chars_of("Unknown");
    let mut has_bssid = false;
    let mut salt: usize = 0;
    let mut i: usize = 0;
    assert(views(ls@).subrange(0, ls.len() as int) =~= views(ls@));
    assert(models(networks@) =~= seq![]);
    assert(ssid@ =~= seq![]);
    assert(views(ls@).subrange(0, 0) =~= seq![]);
    while i < ls.len()
        invariant
            i <= ls.len(),
            salt <= i,
            views(ls@) == lines(raw@),
            netsh_ssid_only_networks(raw@) == ssid_scan_run(
                views(ls@).subrange(i as int, ls.len() as int),
                SsidScan {
                    networks: models(networks@),
                    ssid: ssid@,
                    security: security@,
                    has_bssid: has_bssid,
                    salt: salt,
                },
            ),
            forall|k: int| 0 <= k < networks.len() ==> ssid_only_row(#[trigger] models(networks@)[k]),
            networks.len() + (if ssid.len() > 0 {
                1nat
            } else {
                0nat
            }) <= count_lines(views(ls@).subrange(0, i as int), ssid_lines()),
        decreases ls.len() - i,
    {
        let ghost rest = views(ls@).subrange(i as int, ls.len() as int);
        assert(rest.drop_first() =~= views(ls@).subrange(i + 1, ls.len() as int));
        assert(rest[0] == ls@[i as int]@);
        proof {
            lemma_count_step(views(ls@), i as int, ssid_lines());
            lemma_ssid_only_row(
                SsidScan {
                    networks: models(networks@),
                    ssid: ssid@,
                    security: security@,
                    has_bssid: has_bssid,
                    salt: salt,
                },
            );
        }
        let t = trim_chars(&ls[i]);
        assert(t@ == trim(views(ls@)[i as int]));
        if is_ssid_header(&t) {
            let ghost n0 = networks.len();
            let ghost named = ssid.len() > 0;
            push_netsh_ssid_only_network(&mut networks, &ssid, &security, has_bssid, salt);
            assert(models(networks@).len() == networks.len());
            assert(networks.len() <= n0 + (if named {
                1nat
            } else {
                0nat
            }));
            assert(ssid_lines()(t@) == ssid_header(t@));
            salt += 1;
            ssid = read_field_or(&t, "");
            security = chars_of("Unknown");
            has_bssid = false;
            proof {
                assert(""@ =~= Seq::<char>::empty()) by {
                    reveal_strlit("");
                }
            }
        } else if is_bssid_header(&t) {
            has_bssid = true;
        } else if is_auth_line(&t) {
            security = read_field_or(&t, "Unknown");
        }
        i += 1;
    }
    proof {
        lemma_ssid_only_row(
            SsidScan {
                networks: models(networks@),
                ssid: ssid@,
                security: security@,
                has_bssid: has_bssid,
                salt: salt,
            },
        );
    }
    push_netsh_ssid_only_network(&mut networks, &ssid, &security, has_bssid, salt);
    networks
}

// ---------------------------------------------------------------------------
// Choosing the reader
// ---------------------------------------------------------------------------

/// Some line, trimmed, begins with `State` or `状态` and holds a colon.
pub open spec fn interface_listing(raw: Seq<char>) -> bool {
    exists|i: int|
        0 <= i < lines(raw).len() && {
            let t = trim(#[trigger] lines(raw)[i]);
            state_line(t) && has_colon(t)
        }
}

pub fn looks_like_netsh_interfaces(raw: &str) -> (b: bool)
    ensures
        b == interface_listing(raw@),
{
    let ls = text_lines(raw);
    let mut i: usize = 0;
    while i < ls.len()
        invariant
            i <= ls.len(),
            views(ls@) == lines(raw@),
            forall|j: int|
                0 <= j < i ==> !({
                    let t = trim(#[trigger] lines(raw@)[j]);
                    state_line(t) && has_colon(t)
                }),
        decreases ls.len() - i,
    {
        assert(lines(raw@)[i as int] == ls@[i as int]@);
        let t = trim_chars(&ls[i]);
        if is_state_line(&t) && colon(&t) {
            return true;
        }
        i += 1;
    }
    false
}

/// What the Windows scan reads from `netsh` output: the connected interface
/// when the text is an interface listing that has one, else the BSSID rows,
/// else the SSID-only rows.
pub open spec fn windows_networks(raw: Seq<char>) -> Seq<NetworkModel> {
    if interface_listing(raw) && netsh_interface_networks(raw).len() > 0 {
        netsh_interface_networks(raw)
    } else if netsh_bssid_networks(raw).len() > 0 {
        netsh_bssid_networks(raw)
    } else {
        netsh_ssid_only_networks(raw)
    }
}

pub fn parse_windows_netsh(raw: &str) -> (r: Vec<WifiNetwork>)
    ensures
        models(r@) == windows_networks(raw@),
{
    if looks_like_netsh_interfaces(raw) {
        let interfaces = parse_netsh_interfaces(raw);
        if interfaces.len() > 0 {
            return interfaces;
        }
    }
    let bssid_networks = parse_netsh(raw);
    if bssid_networks.len() > 0 {
        return bssid_networks;
    }
    parse_netsh_ssid_only(raw)
}

/// On Windows every platform output is `netsh` output.
pub fn parse_by_platform(raw: &str) -> (r: Vec<WifiNetwork>)
    ensures
        models(r@) == windows_networks(raw@),
{
    parse_windows_netsh(raw)
}

// ---------------------------------------------------------------------------
// The current connection
// ---------------------------------------------------------------------------

/// What has been read of the interface being looked at.
pub struct CurrentScan {
    pub connected: bool,
    pub current: ConnectionModel,
}

pub open spec fn no_connection() -> ConnectionModel {
    ConnectionModel { ssid: seq![], bssid: None, channel: None, signal_dbm: None }
}

pub open spec fn current_scan_start() -> CurrentScan {
    CurrentScan { connected: false, current: no_connection() }
}

/// The interface read so far is connected and has an SSID.
pub open spec fn current_found(st: CurrentScan) -> bool {
    st.connected && st.current.ssid.len() > 0
}

pub open spec fn bssid_value(t: Seq<char>) -> Option<Seq<char>> {
    match after_colon(t) {
        Some(v) => if is_mac(v) {
            Some(lower(v))
        } else {
            None
        },
        None => None,
    }
}

pub open spec fn channel_value(t: Seq<char>) -> Option<u16> {
    match after_colon(t) {
        Some(v) => channel_number(v),
        None => None,
    }
}

pub open spec fn signal_value(t: Seq<char>) -> Option<i32> {
    match quality_field(t) {
        Some(q) => Some(dbm_of_quality(q)),
        None => None,
    }
}

pub open spec fn current_scan_step(st: CurrentScan, t: Seq<char>) -> CurrentScan {
    if name_header(t) {
        current_scan_start()
    } else if state_line(t) {
        CurrentScan { connected: state_field(t), ..st }
    } else if ssid_line(t) {
        CurrentScan { current: ConnectionModel { ssid: field_or(t, seq![]), ..st.current }, ..st }
    } else if starts_with(t, "BSSID"@) {
        CurrentScan { current: ConnectionModel { bssid: bssid_value(t), ..st.current }, ..st }
    } else if channel_line(t) {
        CurrentScan { current: ConnectionModel { channel: channel_value(t), ..st.current }, ..st }
    } else if signal_line(t) {
        CurrentScan { current: ConnectionModel { signal_dbm: signal_value(t), ..st.current }, ..st }
    } else {
        st
    }
}

/// The first interface of a listing that is connected and has an SSID, read up
/// to the next `Name :` line.
pub open spec fn current_scan_run(ls: Seq<Seq<char>>, st: CurrentScan) -> Option<ConnectionModel>
    decreases ls.len(),
{
    if ls.len() == 0 {
        if current_found(st) {
            Some(st.current)
        } else {
            None
        }
    } else if name_header(trim(ls[0])) && current_found(st) {
        Some(st.current)
    } else {
        current_scan_run(ls.drop_first(), current_scan_step(st, trim(ls[0])))
    }
}

/// The connection a `netsh wlan show interfaces` listing reports.
pub open spec fn netsh_current_connection(raw: Seq<char>) -> Option<ConnectionModel> {
    current_scan_run(lines(raw), current_scan_start())
}

pub open spec fn opt_conn_view(c: Option<CurrentConnection>) -> Option<ConnectionModel> {
    match c {
        Some(c) => Some(c@),
        None => None,
    }
}

pub fn parse_netsh_current_connection(raw: &str) -> (r: Option<CurrentConnection>)
    ensures
        opt_conn_view(r) == netsh_current_connection(raw@),
{
    let ls = text_lines(raw);
    let mut connected = false;
    let mut ssid: Vec<char> = Vec::new();
    let mut bssid: Option<Vec<char>> = None;
    let mut channel: Option<u16> = None;
    let mut signal_dbm: Option<i32> = None;
    let mut i: usize = 0;
    assert(views(ls@).subrange(0, ls.len() as int) =~= views(ls@));
    assert(ssid@ =~= seq![]);
    while i < ls.len()
        invariant
            i <= ls.len(),
            views(ls@) == lines(raw@),
            netsh_current_connection(raw@) == current_scan_run(
                views(ls@).subrange(i as int, ls.len() as int),
                CurrentScan {
                    connected: connected,
                    current: ConnectionModel {
                        ssid: ssid@,
                        bssid: match bssid {
                            Some(b) => Some(b@),
                            None => None,
                        },
                        channel: channel,
                        signal_dbm: signal_dbm,
                    },
                },
            ),
        decreases ls.len() - i,
    {
        let ghost rest = views(ls@).subrange(i as int, ls.len() as int);
        assert(rest.drop_first() =~= views(ls@).subrange(i + 1, ls.len() as int));
        assert(rest[0] == ls@[i as int]@);
        let t = trim_chars(&ls[i]);
        if is_name_header(&t) {
            if connected && ssid.len() > 0 {
                return Some(
                    CurrentConnection {
                        ssid: string_from_chars(ssid),
                        bssid: match bssid {
                            Some(b) => Some(string_from_chars(b)),
                            None => None,
                        },
                        channel,
                        signal_dbm,
                    },
                );
            }
            connected = false;
            ssid = Vec::new();
            bssid = None;
            channel = None;
            signal_dbm = None;
            assert(ssid@ =~= seq![]);
        } else if is_state_line(&t) {
            connected = read_state(&t);
        } else if is_ssid_line(&t) {
            ssid = read_field_or(&t, "");
            proof {
                assert(""@ =~= Seq::<char>::empty()) by {
                    reveal_strlit("");
                }
            }
        } else if begins(&t, "BSSID") {
            bssid = match value_after_colon(&t) {
                Some(v) => if is_mac_chars(&v) {
                    Some(ascii_lowercase(&v))
                } else {
                    None
                },
                None => None,
            };
        } else if is_channel_line(&t) {
            channel = match value_after_colon(&t) {
                Some(v) => parse_channel_chars(&v),
                None => None,
            };
        } else if is_signal_line(&t) {
            signal_dbm = match read_quality(&t) {
                Some(q) => Some(quality_to_dbm(q)),
                None => None,
            };
        }
        i += 1;
    }
    if connected && ssid.len() > 0 {
        Some(
            CurrentConnection {
                ssid: string_from_chars(ssid),
                bssid: match bssid {
                    Some(b) => Some(string_from_chars(b)),
                    None => None,
                },
                channel,
                signal_dbm,
            },
        )
    } else {
        None
    }
}

// ---------------------------------------------------------------------------
// Scan failures
// ---------------------------------------------------------------------------

/// The text says there is no usable wireless interface.
pub open spec fn adapter_missing_text(raw: Seq<char>) -> bool {
    let n = lower(raw);
    ||| contains(n, "no wireless interface"@)
    ||| contains(raw, "没有无线接口"@)
    ||| contains(raw, "未找到无线接口"@)
    ||| contains(n, "wlansvc service is not running"@)
    ||| contains(n, "wireless autoconfig service"@)
    ||| contains(n, "wlansvc) is not running"@)
}

/// The text says the radio is switched off.
pub open spec fn radio_off_text(raw: Seq<char>) -> bool {
    let n = lower(raw);
    ||| contains(n, "software off"@)
    ||| contains(n, "radio is off"@)
    ||| contains(raw, "软件关闭"@)
    ||| contains(raw, "无线电已关闭"@)
}

/// The text says location access was refused.
pub open spec fn permission_text(raw: Seq<char>) -> bool {
    let n = lower(raw);
    ||| contains(n, "location permission"@)
    ||| contains(n, "access is denied"@)
    ||| contains(raw, "定位权限"@)
    ||| contains(raw, "位置权限"@)
    ||| contains(raw, "访问被拒绝"@)
    ||| contains(raw, "拒绝访问"@)
}

/// The failure a Windows scan output or error text names, tested in this
/// order: no adapter, radio off, location permission; the trimmed text goes
/// along as details.
pub open spec fn windows_issue(raw: Seq<char>) -> Option<ScanErrorModel> {
    if adapter_missing_text(raw) {
        Some(
            ScanErrorModel {
                code: ScanIssueCode::AdapterUnavailable,
                title: "未找到可用的 WiFi 网卡"@,
                message: "Windows 没有提供可用的无线接口，请检查网卡、驱动或 WLAN AutoConfig 服务。"@,
                recovery_action: Some(ScanRecoveryAction::Retry),
                details: Some(trim(raw)),
            },
        )
    } else if radio_off_text(raw) {
        Some(
            ScanErrorModel {
                code: ScanIssueCode::WifiDisabled,
                title: "WiFi 已关闭"@,
                message: "请先在 Windows WiFi 设置中开启无线网络，然后返回重新扫描。"@,
                recovery_action: Some(ScanRecoveryAction::OpenWifiSettings),
                details: Some(trim(raw)),
            },
        )
    } else if permission_text(raw) {
        Some(
            ScanErrorModel {
                code: ScanIssueCode::LocationPermissionDenied,
                title: "需要 Windows 定位权限"@,
                message: "Windows 需要定位权限才能扫描附近 WiFi，请在隐私设置中允许定位访问。"@,
                recovery_action: Some(ScanRecoveryAction::OpenLocationSettings),
                details: Some(trim(raw)),
            },
        )
    } else {
        None
    }
}

pub open spec fn opt_error_view(e: Option<ScanError>) -> Option<ScanErrorModel> {
    match e {
        Some(e) => Some(e@),
        None => None,
    }
}

pub fn windows_scan_issue_from_text(raw: &str) -> (r: Option<ScanError>)
    ensures
        opt_error_view(r) == windows_issue(raw@),
{
    let text = chars_of(raw);
    let n = ascii_lowercase(&text);
    if holds(&n, "no wireless interface") || holds(&text, "没有无线接口") || holds(
        &text,
        "未找到无线接口",
    ) || holds(&n, "wlansvc service is not running") || holds(&n, "wireless autoconfig service")
        || holds(&n, "wlansvc) is not running") {
        return Some(
            ScanError::new(
                ScanIssueCode::AdapterUnavailable,
                owned("未找到可用的 WiFi 网卡"),
                owned("Windows 没有提供可用的无线接口，请检查网卡、驱动或 WLAN AutoConfig 服务。"),
                Some(ScanRecoveryAction::Retry),
                Some(string_from_chars(trim_chars(&text))),
            ),
        );
    }
    if holds(&n, "software off") || holds(&n, "radio is off") || holds(&text, "软件关闭") || holds(
        &text,
        "无线电已关闭",
    ) {
        return Some(
            ScanError::new(
                ScanIssueCode::WifiDisabled,
                owned("WiFi 已关闭"),
                owned("请先在 Windows WiFi 设置中开启无线网络，然后返回重新扫描。"),
                Some(ScanRecoveryAction::OpenWifiSettings),
                Some(string_from_chars(trim_chars(&text))),
            ),
        );
    }
    if holds(&n, "location permission") || holds(&n, "access is denied") || holds(&text, "定位权限")
        || holds(&text, "位置权限") || holds(&text, "访问被拒绝") || holds(&text, "拒绝访问") {
        return Some(
            ScanError::new(
                ScanIssueCode::LocationPermissionDenied,
                owned("需要 Windows 定位权限"),
                owned("Windows 需要定位权限才能扫描附近 WiFi，请在隐私设置中允许定位访问。"),
                Some(ScanRecoveryAction::OpenLocationSettings),
                Some(string_from_chars(trim_chars(&text))),
            ),
        );
    }
    None
}

/// A failed `netsh` run: the failure its text names, else the generic scan
/// failure with the text as details.
pub open spec fn windows_scan_error(details: Seq<char>) -> ScanErrorModel {
    match windows_issue(details) {
        Some(e) => e,
        None => scan_failure(details),
    }
}

pub fn classify_windows_scan_error(details: &str) -> (r: ScanError)
    ensures
        r@ == windows_scan_error(details@),
{
    match windows_scan_issue_from_text(details) {
        Some(e) => e,
        None => ScanError::scan_failed(owned(details)),
    }
}

// ---------------------------------------------------------------------------
// Scan decisions
// ---------------------------------------------------------------------------

/// Which `netsh` output the Windows scan reads: the first of the BSSID
/// listing, the plain listing and the interface listing that could be had
/// (`None` while the next has not been run); when all three failed, their
/// errors joined.
pub open spec fn windows_raw_choice(
    bssid: Result<Seq<char>, Seq<char>>,
    basic: Option<Result<Seq<char>, Seq<char>>>,
    interfaces: Option<Result<Seq<char>, Seq<char>>>,
) -> Option<Result<(Seq<char>, Seq<char>), Seq<char>>> {
    match bssid {
        Ok(raw) => Some(Ok(("netsh wlan show networks mode=bssid"@, raw))),
        Err(e1) => match basic {
            None => None,
            Some(Ok(raw)) => Some(Ok(("netsh wlan show networks"@, raw))),
            Some(Err(e2)) => match interfaces {
                None => None,
                Some(Ok(raw)) => Some(Ok(("netsh wlan show interfaces"@, raw))),
                Some(Err(e3)) => Some(
                    Err(
                        e1 + "; fallback netsh wlan show networks failed: "@ + e2
                            + "; fallback netsh wlan show interfaces failed: "@ + e3,
                    ),
                ),
            },
        },
    }
}

pub open spec fn opt_text_result(r: Option<Result<String, String>>) -> Option<
    Result<Seq<char>, Seq<char>>,
> {
    match r {
        Some(r) => Some(text_result_view(r)),
        None => None,
    }
}

pub fn scan_raw(
    bssid: Result<String, String>,
    basic: Option<Result<String, String>>,
    interfaces: Option<Result<String, String>>,
) -> (r: Option<Result<(String, String), String>>)
    ensures
        match r {
            Some(res) => windows_raw_choice(
                text_result_view(bssid),
                opt_text_result(basic),
                opt_text_result(interfaces),
            ) == Some(raw_result_view(res)),
            None => windows_raw_choice(
                text_result_view(bssid),
                opt_text_result(basic),
                opt_text_result(interfaces),
            ) is None,
        },
{
    let e1 = match bssid {
        Ok(raw) => return Some(Ok((owned("netsh wlan show networks mode=bssid"), raw))),
        Err(e) => e,
    };
    let e2 = match basic {
        None => return None,
        Some(Ok(raw)) => return Some(Ok((owned("netsh wlan show networks"), raw))),
        Some(Err(e)) => e,
    };
    let e3 = match interfaces {
        None => return None,
        Some(Ok(raw)) => return Some(Ok((owned("netsh wlan show interfaces"), raw))),
        Some(Err(e)) => e,
    };
    let mut message = chars_of(e1.as_str());
    append_chars(&mut message, &chars_of("; fallback netsh wlan show networks failed: "));
    append_chars(&mut message, &chars_of(e2.as_str()));
    append_chars(&mut message, &chars_of("; fallback netsh wlan show interfaces failed: "));
    append_chars(&mut message, &chars_of(e3.as_str()));
    Some(Err(string_from_chars(message)))
}

/// The outcome of the Windows scan: a failed `netsh` run is classified; output
/// that gives no network but names a failure fails with it; otherwise the
/// networks read.
pub open spec fn windows_scan_outcome(raw: Result<(Seq<char>, Seq<char>), Seq<char>>) -> Result<
    (Seq<char>, Seq<NetworkModel>),
    ScanErrorModel,
> {
    match raw {
        Err(e) => Err(windows_scan_error(e)),
        Ok((source, text)) => {
            let networks = windows_networks(text);
            if networks.len() == 0 && windows_issue(text) is Some {
                Err(windows_issue(text)->0)
            } else {
                Ok((source, networks))
            }
        },
    }
}

pub fn scan_windows(raw: Result<(String, String), String>) -> (r: Result<
    (String, Vec<WifiNetwork>),
    ScanError,
>)
    ensures
        scan_outcome_view(r) == windows_scan_outcome(raw_result_view(raw)),
{
    match raw {
        Err(e) => Err(classify_windows_scan_error(e.as_str())),
        Ok((source, text)) => {
            let networks = parse_by_platform(text.as_str());
            if networks.len() == 0 {
                match windows_scan_issue_from_text(text.as_str()) {
                    Some(issue) => {
                        return Err(issue);
                    },
                    None => {},
                }
            }
            Ok((source, networks))
        },
    }
}

// ---------------------------------------------------------------------------
// Laws of the current connection
// ---------------------------------------------------------------------------

/// A BSSID that is absent or a lower-case MAC address.
pub open spec fn lowercase_mac_or_none(b: Option<Seq<char>>) -> bool {
    b matches Some(x) ==> is_mac(x) && lower(x) == x
}

/// Some line, trimmed, is a `State` line that says connected.
pub open spec fn names_connected_state(ls: Seq<Seq<char>>) -> bool {
    exists|i: int| 0 <= i < ls.len() && state_line(trim(#[trigger] ls[i])) && state_field(trim(ls[i]))
}

proof fn lemma_current_scan_run(ls: Seq<Seq<char>>, st: CurrentScan)
    requires
        lowercase_mac_or_none(st.current.bssid),
    ensures
        current_scan_run(ls, st) matches Some(c) ==> c.ssid.len() > 0 && lowercase_mac_or_none(
            c.bssid,
        ) && (st.connected || names_connected_state(ls)),
    decreases ls.len(),
{
    if ls.len() > 0 && !(name_header(trim(ls[0])) && current_found(st)) {
        let t = trim(ls[0]);
        let next = current_scan_step(st, t);
        if !name_header(t) && !state_line(t) && !ssid_line(t) && starts_with(t, "BSSID"@) {
            match after_colon(t) {
                Some(v) => if is_mac(v) {
                    lemma_mac_lower(v);
                },
                None => {},
            }
        }
        lemma_current_scan_run(ls.drop_first(), next);
        if current_scan_run(ls, st) is Some {
            if names_connected_state(ls.drop_first()) {
                let i = choose|i: int|
                    0 <= i < ls.drop_first().len() && state_line(trim(#[trigger] ls.drop_first()[i]))
                        && state_field(trim(ls.drop_first()[i]));
                assert(ls[i + 1] == ls.drop_first()[i]);
            }
            if next.connected && !st.connected {
                assert(state_line(trim(ls[0])) && state_field(trim(ls[0])));
            }
        }
    }
}

/// The connection read from `netsh wlan show interfaces` has an SSID, a BSSID
/// that is absent or a lower-case MAC address, and comes from a listing in
/// which some interface's `State` says connected.
pub proof fn law_netsh_connection_shape(raw: Seq<char>)
    ensures
        netsh_current_connection(raw) matches Some(c) ==> c.ssid.len() > 0
            && lowercase_mac_or_none(c.bssid) && names_connected_state(lines(raw)),
{
    lemma_current_scan_run(lines(raw), current_scan_start());
}

/// The lines of each interface of a listing: the lines before the first
/// `Name :` line, then the lines after each `Name :` line up to the next one.
pub open spec fn interface_blocks(ls: Seq<Seq<char>>, cur: Seq<Seq<char>>) -> Seq<Seq<Seq<char>>>
    decreases ls.len(),
{
    if ls.len() == 0 {
        seq![cur]
    } else if name_header(trim(ls[0])) {
        seq![cur] + interface_blocks(ls.drop_first(), seq![])
    } else {
        interface_blocks(ls.drop_first(), cur.push(ls[0]))
    }
}

/// What the lines of a block say, read in order.
pub open spec fn block_state(b: Seq<Seq<char>>, st: CurrentScan) -> CurrentScan
    decreases b.len(),
{
    if b.len() == 0 {
        st
    } else {
        block_state(b.drop_first(), current_scan_step(st, trim(b[0])))
    }
}

/// The connection of the first block whose interface is connected with an
/// SSID.
pub open spec fn first_connected_block(bs: Seq<Seq<Seq<char>>>) -> Option<ConnectionModel>
    decreases bs.len(),
{
    if bs.len() == 0 {
        None
    } else if current_found(block_state(bs[0], current_scan_start())) {
        Some(block_state(bs[0], current_scan_start()).current)
    } else {
        first_connected_block(bs.drop_first())
    }
}

proof fn lemma_block_state_push(b: Seq<Seq<char>>, l: Seq<char>, st: CurrentScan)
    ensures
        block_state(b.push(l), st) == current_scan_step(block_state(b, st), trim(l)),
    decreases b.len(),
{
    if b.len() > 0 {
        assert(b.push(l)[0] == b[0]);
        assert(b.push(l).drop_first() =~= b.drop_first().push(l));
        lemma_block_state_push(b.drop_first(), l, current_scan_step(st, trim(b[0])));
    } else {
        assert(b.push(l)[0] == l);
        assert(b.push(l).drop_first() =~= Seq::<Seq<char>>::empty());
        assert(block_state(Seq::<Seq<char>>::empty(), current_scan_step(st, trim(l))) == current_scan_step(st, trim(l)));
    }
}

proof fn lemma_blocks(ls: Seq<Seq<char>>, cur: Seq<Seq<char>>)
    ensures
        current_scan_run(ls, block_state(cur, current_scan_start())) == first_connected_block(
            interface_blocks(ls, cur),
        ),
    decreases ls.len(),
{
    let st = block_state(cur, current_scan_start());
    if ls.len() == 0 {
        assert(first_connected_block(seq![cur]) == (if current_found(st) {
            Some(st.current)
        } else {
            first_connected_block(seq![cur].drop_first())
        }));
        assert(seq![cur].drop_first() =~= Seq::<Seq<Seq<char>>>::empty());
    } else if name_header(trim(ls[0])) {
        lemma_blocks(ls.drop_first(), seq![]);
        let bs = seq![cur] + interface_blocks(ls.drop_first(), seq![]);
        assert(bs[0] == cur);
        assert(bs.drop_first() =~= interface_blocks(ls.drop_first(), seq![]));
        assert(block_state(seq![], current_scan_start()) == current_scan_start());
    } else {
        lemma_block_state_push(cur, ls[0], current_scan_start());
        lemma_blocks(ls.drop_first(), cur.push(ls[0]));
    }
}

/// The connection `netsh wlan show interfaces` reports is that of the first
/// interface block (the lines before the first `Name :` line, then those after
/// each one) whose last `State` says connected and whose last `SSID` is not
/// empty; none when no block is.
pub proof fn law_netsh_connection_is_the_first_connected_block(raw: Seq<char>)
    ensures
        netsh_current_connection(raw) == first_connected_block(interface_blocks(lines(raw), seq![])),
{
    assert(block_state(seq![], current_scan_start()) == current_scan_start());
    lemma_blocks(lines(raw), seq![]);
}

// ---------------------------------------------------------------------------
// Law of the SSID-only listing
// ---------------------------------------------------------------------------

/// The lines of a listing in blocks: the lines before the first `SSID n :`
/// line, then each `SSID n :` line with the lines after it up to the next.
pub open spec fn ssid_blocks(ls: Seq<Seq<char>>, cur: Seq<Seq<char>>) -> Seq<Seq<Seq<char>>>
    decreases ls.len(),
{
    if ls.len() == 0 {
        seq![cur]
    } else if ssid_header(trim(ls[0])) {
        seq![cur] + ssid_blocks(ls.drop_first(), seq![ls[0]])
    } else {
        ssid_blocks(ls.drop_first(), cur.push(ls[0]))
    }
}

/// Some line, trimmed, is a `BSSID n :` line.
pub open spec fn has_bssid_line(body: Seq<Seq<char>>) -> bool
    decreases body.len(),
{
    body.len() > 0 && (has_bssid_line(body.drop_last()) || bssid_header(trim(body.last())))
}

/// The value of the last `Authentication` line (one that is not a `BSSID`
/// line), `Unknown` without one.
pub open spec fn block_security(body: Seq<Seq<char>>) -> Seq<char>
    decreases body.len(),
{
    if body.len() == 0 {
        "Unknown"@
    } else {
        let t = trim(body.last());
        if !bssid_header(t) && auth_line(t) {
            field_or(t, "Unknown"@)
        } else {
            block_security(body.drop_last())
        }
    }
}

/// The network of the `k`-th block: a block opened by `SSID n :` with a
/// non-empty value and no `BSSID n :` line gives a network of that name, its
/// last security, and a synthetic BSSID salted with `k`.
pub open spec fn ssid_block_network(b: Seq<Seq<char>>, k: nat) -> Option<NetworkModel> {
    if b.len() > 0 && ssid_header(trim(b[0])) {
        let v = field_or(trim(b[0]), seq![]);
        if v.len() > 0 && !has_bssid_line(b.drop_first()) {
            Some(
                network_of(
                    v,
                    synthetic(v, 0, k as usize),
                    -100i32,
                    0,
                    block_security(b.drop_first()),
                    Some(0u8),
                ),
            )
        } else {
            None
        }
    } else {
        None
    }
}

/// The networks of the blocks, the first of them being the `k`-th.
pub open spec fn ssid_block_networks(bs: Seq<Seq<Seq<char>>>, k: nat) -> Seq<NetworkModel>
    decreases bs.len(),
{
    if bs.len() == 0 {
        seq![]
    } else {
        push_opt(seq![], ssid_block_network(bs[0], k)) + ssid_block_networks(
            bs.drop_first(),
            k + 1,
        )
    }
}

/// What has been read of the `k`-th block `cur`.
spec fn ssid_block_state(nets: Seq<NetworkModel>, cur: Seq<Seq<char>>, k: nat) -> SsidScan {
    if cur.len() > 0 && ssid_header(trim(cur[0])) {
        SsidScan {
            networks: nets,
            ssid: field_or(trim(cur[0]), seq![]),
            security: block_security(cur.drop_first()),
            has_bssid: has_bssid_line(cur.drop_first()),
            salt: k as usize,
        }
    } else {
        SsidScan {
            networks: nets,
            ssid: seq![],
            security: block_security(cur),
            has_bssid: has_bssid_line(cur),
            salt: k as usize,
        }
    }
}

proof fn lemma_ssid_pending(nets: Seq<NetworkModel>, cur: Seq<Seq<char>>, k: nat)
    requires
        k <= usize::MAX,
    ensures
        ssid_only_network(ssid_block_state(nets, cur, k)) == ssid_block_network(cur, k),
{
}

proof fn lemma_ssid_header_step(nets: Seq<NetworkModel>, cur: Seq<Seq<char>>, k: nat, l: Seq<char>)
    requires
        k < usize::MAX,
        ssid_header(trim(l)),
    ensures
        ssid_scan_step(ssid_block_state(nets, cur, k), l) == ssid_block_state(
            push_opt(nets, ssid_block_network(cur, k)),
            seq![l],
            k + 1,
        ),
{
    lemma_ssid_pending(nets, cur, k);
    let head = seq![l];
    assert(head.drop_first() =~= Seq::<Seq<char>>::empty());
    assert(head[0] == l);
    assert(block_security(head.drop_first()) == "Unknown"@);
    assert(!has_bssid_line(head.drop_first()));
}

proof fn lemma_ssid_other_step(nets: Seq<NetworkModel>, cur: Seq<Seq<char>>, k: nat, l: Seq<char>)
    requires
        k <= usize::MAX,
        !ssid_header(trim(l)),
    ensures
        ssid_scan_step(ssid_block_state(nets, cur, k), l) == ssid_block_state(nets, cur.push(l), k),
{
    let next = cur.push(l);
    assert(next.last() == l);
    if cur.len() > 0 && ssid_header(trim(cur[0])) {
        assert(next[0] == cur[0]);
        assert(next.drop_first() =~= cur.drop_first().push(l));
        assert(next.drop_first().drop_last() =~= cur.drop_first());
        assert(next.drop_first().last() == l);
    } else {
        assert(next.drop_last() =~= cur);
        if cur.len() == 0 {
            assert(next[0] == l);
        } else {
            assert(next[0] == cur[0]);
        }
    }
}

proof fn lemma_ssid_blocks(ls: Seq<Seq<char>>, cur: Seq<Seq<char>>, nets: Seq<NetworkModel>, k: nat)
    requires
        k + ls.len() <= usize::MAX,
    ensures
        ssid_scan_run(ls, ssid_block_state(nets, cur, k)) == nets + ssid_block_networks(
            ssid_blocks(ls, cur),
            k,
        ),
    decreases ls.len(),
{
    lemma_ssid_pending(nets, cur, k);
    let x = push_opt(seq![], ssid_block_network(cur, k));
    if ls.len() == 0 {
        let bs = seq![cur];
        assert(bs[0] == cur);
        assert(bs.drop_first() =~= Seq::<Seq<Seq<char>>>::empty());
        assert(ssid_block_networks(bs.drop_first(), k + 1) == Seq::<NetworkModel>::empty());
        assert(ssid_block_networks(bs, k) =~= x);
        assert(push_opt(nets, ssid_block_network(cur, k)) =~= nets + x);
    } else {
        let l = ls[0];
        let rest = ls.drop_first();
        if ssid_header(trim(l)) {
            let nets2 = push_opt(nets, ssid_block_network(cur, k));
            lemma_ssid_header_step(nets, cur, k, l);
            lemma_ssid_blocks(rest, seq![l], nets2, k + 1);
            let tail = ssid_blocks(rest, seq![l]);
            let bs = seq![cur] + tail;
            assert(bs[0] == cur);
            assert(bs.drop_first() =~= tail);
            assert(nets2 =~= nets + x);
            assert(nets2 + ssid_block_networks(tail, k + 1) =~= nets + (x + ssid_block_networks(
                tail,
                k + 1,
            )));
        } else {
            lemma_ssid_other_step(nets, cur, k, l);
            lemma_ssid_blocks(rest, cur.push(l), nets, k);
        }
    }
}

/// The SSID-only listing block by block: in order, one network for each block
/// opened by an `SSID n :` line with a non-empty value and holding no
/// `BSSID n :` line; it is named by that value, carries the block's last
/// security, a synthetic BSSID salted with the block's number, and no
/// channel, signal or quality.
pub proof fn law_ssid_only_networks_by_block(raw: Seq<char>)
    requires
        lines(raw).len() <= usize::MAX,
    ensures
        netsh_ssid_only_networks(raw) == ssid_block_networks(
            ssid_blocks(lines(raw), seq![]),
            0,
        ),
{
    let e = Seq::<Seq<char>>::empty();
    assert(block_security(e) == "Unknown"@);
    assert(!has_bssid_line(e));
    assert(ssid_block_state(seq![], e, 0) == ssid_scan_start());
    lemma_ssid_blocks(lines(raw), e, seq![], 0);
    assert(Seq::<NetworkModel>::empty() + ssid_block_networks(ssid_blocks(lines(raw), e), 0)
        =~= ssid_block_networks(ssid_blocks(lines(raw), e), 0));
}

// ---------------------------------------------------------------------------
// Law of the location-permission failure
// ---------------------------------------------------------------------------

/// Windows text that speaks of the location permission (or of access being
/// denied), in any ASCII case, and names neither a missing adapter nor a
/// switched-off radio, is a refused location permission: the error sends the
/// user to the location settings, whether it came as a failed `netsh` run or
/// as output in which no network could be read.
pub proof fn law_location_permission_text_is_classified(raw: Seq<char>, source: Seq<char>)
    requires
        contains(lower(raw), "location permission"@) || contains(lower(raw), "access is denied"@),
        !adapter_missing_text(raw),
        !radio_off_text(raw),
    ensures
        windows_scan_error(raw).code == ScanIssueCode::LocationPermissionDenied,
        windows_scan_error(raw).recovery_action == Some(ScanRecoveryAction::OpenLocationSettings),
        windows_networks(raw).len() == 0 ==> (windows_scan_outcome(Err(raw)) == windows_scan_outcome(
            Ok((source, raw)),
        )),
        windows_scan_outcome(Err(raw)) == Err::<(Seq<char>, Seq<NetworkModel>), ScanErrorModel>(
            windows_scan_error(raw),
        ),
{
}

// ---------------------------------------------------------------------------
// Law of the security in a BSSID listing
// ---------------------------------------------------------------------------

/// A line that closes the access point being read in a BSSID listing: a new
/// `SSID n :` line, or a new `BSSID n :` line.
pub open spec fn closes_access_point(t: Seq<char>) -> bool {
    ssid_header(t) || (!auth_line(t) && bssid_header(t))
}

/// A `BSSID n :` line that opens an access point.
pub open spec fn opens_access_point(t: Seq<char>) -> bool {
    !ssid_header(t) && !auth_line(t) && bssid_header(t)
}

/// The value of the last `Authentication` (or `身份验证`) line among the
/// lines, `Unknown` without one.
pub open spec fn last_authentication(ls: Seq<Seq<char>>) -> Seq<char>
    decreases ls.len(),
{
    if ls.len() == 0 {
        "Unknown"@
    } else {
        let t = trim(ls.last());
        if !ssid_header(t) && auth_line(t) {
            field_or(t, "Unknown"@)
        } else {
            last_authentication(ls.drop_last())
        }
    }
}

/// A security as a network shows it: `Unknown` when empty.
pub open spec fn shown_security(v: Seq<char>) -> Seq<char> {
    if v.len() == 0 {
        "Unknown"@
    } else {
        v
    }
}

/// `n` is the access point opened at line `j` and closed at line `e` (or at
/// the end), and its security is that of the last `Authentication` line
/// before `e`.
pub open spec fn access_point_at(ls: Seq<Seq<char>>, n: NetworkModel, j: int, e: int) -> bool {
    &&& 0 <= j < e <= ls.len()
    &&& opens_access_point(trim(ls[j]))
    &&& forall|m: int| j < m < e ==> !closes_access_point(trim(#[trigger] ls[m]))
    &&& (e == ls.len() || closes_access_point(trim(ls[e])))
    &&& n.bssid == unicode_lowercase(field_or(trim(ls[j]), seq![]))
    &&& n.security == shown_security(last_authentication(ls.subrange(0, e)))
}

pub open spec fn read_access_point(ls: Seq<Seq<char>>, n: NetworkModel) -> bool {
    exists|j: int, e: int| access_point_at(ls, n, j, e)
}

/// The access point being read at line `i` was opened at `j`.
spec fn open_since(ls: Seq<Seq<char>>, bssid: Seq<char>, j: int, i: int) -> bool {
    &&& 0 <= j < i
    &&& opens_access_point(trim(ls[j]))
    &&& bssid == unicode_lowercase(field_or(trim(ls[j]), seq![]))
    &&& forall|m: int| j < m < i ==> !closes_access_point(trim(#[trigger] ls[m]))
}

proof fn lemma_pending_access_point(ls: Seq<Seq<char>>, st: BssidScan, i: int)
    requires
        0 <= i <= ls.len(),
        i == ls.len() || closes_access_point(trim(ls[i])),
        st.security == last_authentication(ls.subrange(0, i)),
        st.bssid.len() > 0 ==> exists|j: int| open_since(ls, st.bssid, j, i),
    ensures
        bssid_scan_pending(st) matches Some(n) ==> read_access_point(ls, n),
{
    if bssid_scan_pending(st) is Some {
        let n = bssid_scan_pending(st)->0;
        lemma_mac_nonempty(st.bssid);
        let j = choose|j: int| open_since(ls, st.bssid, j, i);
        assert(access_point_at(ls, n, j, i));
    }
}

proof fn lemma_access_points(ls: Seq<Seq<char>>, i: int, st: BssidScan)
    requires
        0 <= i <= ls.len(),
        forall|k: int| 0 <= k < st.networks.len() ==> read_access_point(ls, #[trigger] st.networks[k]),
        st.security == last_authentication(ls.subrange(0, i)),
        st.bssid.len() > 0 ==> exists|j: int| open_since(ls, st.bssid, j, i),
    ensures
        forall|k: int|
            0 <= k < bssid_scan_run(ls.subrange(i, ls.len() as int), st).len() ==> read_access_point(
                ls,
                #[trigger] bssid_scan_run(ls.subrange(i, ls.len() as int), st)[k],
            ),
    decreases ls.len() - i,
{
    let rest = ls.subrange(i, ls.len() as int);
    if i == ls.len() {
        lemma_pending_access_point(ls, st, i);
        assert(rest.len() == 0);
        let out = push_opt(st.networks, bssid_scan_pending(st));
        assert(bssid_scan_run(rest, st) == out);
        assert forall|k: int| 0 <= k < out.len() implies read_access_point(ls, #[trigger] out[k]) by {
            if k < st.networks.len() {
                assert(out[k] == st.networks[k]);
            }
        }
    } else {
        let l = ls[i];
        let t = trim(l);
        assert(rest[0] == l);
        assert(rest.drop_first() =~= ls.subrange(i + 1, ls.len() as int));
        assert(ls.subrange(0, i + 1).drop_last() =~= ls.subrange(0, i));
        assert(ls.subrange(0, i + 1).last() == l);
        let next = bssid_scan_step(st, l);
        if closes_access_point(t) {
            lemma_pending_access_point(ls, st, i);
            let pushed = push_opt(st.networks, bssid_scan_pending(st));
            assert forall|k: int| 0 <= k < pushed.len() implies read_access_point(
                ls,
                #[trigger] pushed[k],
            ) by {
                if k < st.networks.len() {
                    assert(pushed[k] == st.networks[k]);
                }
            }
            assert(next.networks == pushed);
            if !ssid_header(t) {
                assert(open_since(ls, next.bssid, i, i + 1));
            }
        } else {
            assert(next.networks == st.networks);
            if next.bssid.len() > 0 {
                assert(next.bssid == st.bssid);
                let j = choose|j: int| open_since(ls, st.bssid, j, i);
                assert(open_since(ls, next.bssid, j, i + 1));
            }
        }
        lemma_access_points(ls, i + 1, next);
        assert(bssid_scan_run(rest, st) == bssid_scan_run(ls.subrange(i + 1, ls.len() as int), next));
    }
}

/// Every network of a BSSID listing is the access point of some `BSSID n :`
/// line, and its security is the value of the last `Authentication` (or
/// `身份验证`) line read before that access point was recorded (`Unknown` when
/// there is none or it is empty): a network under `Authentication : Open` is
/// open.
pub proof fn law_bssid_listing_security(raw: Seq<char>)
    ensures
        forall|k: int|
            0 <= k < netsh_bssid_networks(raw).len() ==> read_access_point(
                lines(raw),
                #[trigger] netsh_bssid_networks(raw)[k],
            ),
{
    let ls = lines(raw);
    assert(ls.subrange(0, 0) =~= Seq::<Seq<char>>::empty());
    assert(ls.subrange(0, ls.len() as int) =~= ls);
    lemma_access_points(ls, 0, bssid_scan_start());
}

} // verus!
