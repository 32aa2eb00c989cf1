//! WiFi networks as the scanners report them, and the field-level rules that
//! every platform parser shares: bands and frequencies, signal and quality,
//! security flags, MAC addresses and channel fields.
use vstd::prelude::*;
use vstd::utf8::encode_utf8;
use crate::text::{
    lemma_lower_add, lemma_lower_idempotent, lemma_pieces_lower, lemma_pieces_split,
    lemma_pieces_whole, lemma_trim_lower, lower_char, trim_end, trim_start,
    all_digits, ascii_lowercase, begins, chars_of, contains, copy_range, digit, hex_digit, holds,
    is, is_char, is_digit, is_hex_digit, is_ws, lower, owned, parse_i32, parse_int32, parse_uint,
    parse_unsigned, pieces, pieces_from, split_at_char, split_whitespace, starts_with,
    string_from_chars, trim, trim_chars, views, whitespace, words,
};

verus! {

// ---------------------------------------------------------------------------
// Types
// ---------------------------------------------------------------------------

#[derive(Debug, Clone)]
pub struct WifiNetwork {
    pub ssid: String,
    pub bssid: String,
    pub signal_dbm: i32,
    pub quality: u8,
    pub channel: u16,
    pub frequency_mhz: u16,
    pub band: String,
    pub security: String,
    pub is_open: bool,
    pub is_enterprise: bool,
    pub is_connected: bool,
}

/// The value a `WifiNetwork` stands for.
pub struct NetworkModel {
    pub ssid: Seq<char>,
    pub bssid: Seq<char>,
    pub signal_dbm: i32,
    pub quality: u8,
    pub channel: u16,
    pub frequency_mhz: u16,
    pub band: Seq<char>,
    pub security: Seq<char>,
    pub is_open: bool,
    pub is_enterprise: bool,
    pub is_connected: bool,
}

impl View for WifiNetwork {
    type V = NetworkModel;

    open spec fn view(&self) -> NetworkModel {
        NetworkModel {
            ssid: self.ssid@,
            bssid: self.bssid@,
            signal_dbm: self.signal_dbm,
            quality: self.quality,
            channel: self.channel,
            frequency_mhz: self.frequency_mhz,
            band: self.band@,
            security: self.security@,
            is_open: self.is_open,
            is_enterprise: self.is_enterprise,
            is_connected: self.is_connected,
        }
    }
}

/// The models of a list of networks.
pub open spec fn models(v: Seq<WifiNetwork>) -> Seq<NetworkModel> {
    v.map_values(|n: WifiNetwork| n@)
}

#[derive(Debug, Clone, Copy, PartialEq, Eq, Structural)]
pub enum WifiBand {
    Ghz2,
    Ghz5,
    Ghz6,
}

/// A channel number with the band it was reported in, when one was.
#[derive(Debug, Clone, Copy, PartialEq, Eq, Structural)]
pub struct NetworkChannel {
    pub number: u16,
    pub band: Option<WifiBand>,
}

impl NetworkChannel {
    pub open spec fn none() -> NetworkChannel {
        NetworkChannel { number: 0, band: None }
    }

    pub fn unknown() -> (r: NetworkChannel)
        ensures
            r == NetworkChannel::none(),
    {
        NetworkChannel { number: 0, band: None }
    }
}

/// The connection the system reports as current.
#[derive(Debug, Clone)]
pub struct CurrentConnection {
    pub ssid: String,
    pub bssid: Option<String>,
    pub channel: Option<u16>,
    pub signal_dbm: Option<i32>,
}

pub struct ConnectionModel {
    pub ssid: Seq<char>,
    pub bssid: Option<Seq<char>>,
    pub channel: Option<u16>,
    pub signal_dbm: Option<i32>,
}

pub open spec fn opt_view(o: Option<String>) -> Option<Seq<char>> {
    match o {
        Some(s) => Some(s@),
        None => None,
    }
}

impl View for CurrentConnection {
    type V = ConnectionModel;

    open spec fn view(&self) -> ConnectionModel {
        ConnectionModel {
            ssid: self.ssid@,
            bssid: opt_view(self.bssid),
            channel: self.channel,
            signal_dbm: self.signal_dbm,
        }
    }
}

/// The SSID and BSSID of the current connection.
#[derive(Debug, Clone)]
pub struct ConnectionIdentity {
    pub ssid: String,
    pub bssid: Option<String>,
}

/// The identity of the current connection, when there is one.
pub fn current_connection_identity(current: Option<CurrentConnection>) -> (r: Option<
    ConnectionIdentity,
>)
    ensures
        r is Some <==> current is Some,
        r matches Some(id) ==> id.ssid@ == current->0.ssid@ && opt_view(id.bssid) == opt_view(
            current->0.bssid,
        ),
{
    match current {
        Some(connection) => Some(ConnectionIdentity { ssid: connection.ssid, bssid: connection.bssid }),
        None => None,
    }
}

// ---------------------------------------------------------------------------
// Bands and frequencies
// ---------------------------------------------------------------------------

impl WifiBand {
    pub open spec fn name(self) -> Seq<char> {
        match self {
            WifiBand::Ghz2 => "2.4GHz"@,
            WifiBand::Ghz5 => "5GHz"@,
            WifiBand::Ghz6 => "6GHz"@,
        }
    }

    pub fn label(self) -> (r: &'static str)
        ensures
            r@ == self.name(),
    {
        match self {
            WifiBand::Ghz2 => "2.4GHz",
            WifiBand::Ghz5 => "5GHz",
            WifiBand::Ghz6 => "6GHz",
        }
    }

    /// The centre frequency of a channel of this band, 0 where the band has
    /// no such channel.
    pub open spec fn mhz(self, channel: u16) -> u16 {
        match self {
            WifiBand::Ghz2 => if 1 <= channel <= 13 {
                (2407 + channel * 5) as u16
            } else if channel == 14 {
                2484
            } else {
                0
            },
            WifiBand::Ghz5 => if 1 <= channel <= 177 {
                (5000 + channel * 5) as u16
            } else {
                0
            },
            WifiBand::Ghz6 => if channel == 2 {
                5935
            } else if 1 <= channel <= 233 {
                (5950 + channel * 5) as u16
            } else {
                0
            },
        }
    }

    pub fn frequency(self, channel: u16) -> (r: u16)
        ensures
            r == self.mhz(channel),
    {
        match self {
            WifiBand::Ghz2 => if 1 <= channel && channel <= 13 {
                2407 + channel * 5
            } else if channel == 14 {
                2484
            } else {
                0
            },
            WifiBand::Ghz5 => if 1 <= channel && channel <= 177 {
                5000 + channel * 5
            } else {
                0
            },
            WifiBand::Ghz6 => if channel == 2 {
                5935
            } else if 1 <= channel && channel <= 233 {
                5950 + channel * 5
            } else {
                0
            },
        }
    }
}

/// The frequency of a channel number given without band: channels 1 to 13
/// are read as 2.4 GHz, 32 to 177 as 5 GHz, 15 to 31 and 178 to 233 as 6 GHz.
pub open spec fn frequency_of_channel(channel: u16) -> u16 {
    if 1 <= channel <= 13 {
        (2407 + channel * 5) as u16
    } else if channel == 14 {
        2484
    } else if 32 <= channel <= 177 {
        (5000 + channel * 5) as u16
    } else if (15 <= channel <= 31) || (178 <= channel <= 233) {
        (5950 + channel * 5) as u16
    } else {
        0
    }
}

pub fn channel_to_frequency(channel: u16) -> (r: u16)
    ensures
        r == frequency_of_channel(channel),
{
    if 1 <= channel && channel <= 13 {
        2407 + channel * 5
    } else if channel == 14 {
        2484
    } else if 32 <= channel && channel <= 177 {
        5000 + channel * 5
    } else if (15 <= channel && channel <= 31) || (178 <= channel && channel <= 233) {
        5950 + channel * 5
    } else {
        0
    }
}

pub open spec fn band_name_of_frequency(frequency_mhz: u16) -> Seq<char> {
    if 2400 <= frequency_mhz <= 2500 {
        "2.4GHz"@
    } else if 4900 <= frequency_mhz <= 5925 {
        "5GHz"@
    } else if 5926 <= frequency_mhz <= 7125 {
        "6GHz"@
    } else {
        "Unknown"@
    }
}

pub fn band_from_frequency(frequency_mhz: u16) -> (r: String)
    ensures
        r@ == band_name_of_frequency(frequency_mhz),
{
    if 2400 <= frequency_mhz && frequency_mhz <= 2500 {
        owned("2.4GHz")
    } else if 4900 <= frequency_mhz && frequency_mhz <= 5925 {
        owned("5GHz")
    } else if 5926 <= frequency_mhz && frequency_mhz <= 7125 {
        owned("6GHz")
    } else {
        owned("Unknown")
    }
}

// ---------------------------------------------------------------------------
// Signal strength
// ---------------------------------------------------------------------------

/// Signal quality in percent for a signal in dBm: twice the distance above
/// -100 dBm, held to 0..=100.
pub open spec fn quality_of_dbm(dbm: i32) -> u8 {
    let q = (dbm + 100) * 2;
    if q < 0 {
        0
    } else if q > 100 {
        100
    } else {
        q as u8
    }
}

pub fn dbm_to_quality(dbm: i32) -> (r: u8)
    ensures
        r == quality_of_dbm(dbm),
{
    let q: i64 = (dbm as i64 + 100) * 2;
    if q < 0 {
        0
    } else if q > 100 {
        100
    } else {
        q as u8
    }
}

/// Signal in dBm for a quality in percent: half the quality below -100 dBm.
pub open spec fn dbm_of_quality(quality: u8) -> i32 {
    (quality / 2 - 100) as i32
}

pub fn quality_to_dbm(quality: u8) -> (r: i32)
    ensures
        r == dbm_of_quality(quality),
        -100 <= r <= 27,
{
    (quality as i32) / 2 - 100
}

/// A quality read back from the signal it stands for is the quality rounded
/// down to an even number: the signal keeps whole dBm, two quality points
/// each.
pub proof fn law_quality_round_trip(quality: u8)
    requires
        quality <= 100,
    ensures
        quality_of_dbm(dbm_of_quality(quality)) == quality - quality % 2,
{
}

/// A signal between -100 and -50 dBm survives the way through its quality.
pub proof fn law_signal_round_trip(dbm: i32)
    requires
        -100 <= dbm <= -50,
    ensures
        dbm_of_quality(quality_of_dbm(dbm)) == dbm,
{
}

/// The frequency a band gives a channel lies in the band its label names.
pub proof fn law_band_frequency_matches_label(band: WifiBand, channel: u16)
    ensures
        band.mhz(channel) != 0 ==> band_name_of_frequency(band.mhz(channel)) == band.name(),
{
}

/// The frequency read from a bare channel number lies in the band that the
/// number is read as: 2.4 GHz for 1 to 14, 5 GHz for 32 to 177, 6 GHz for 15
/// to 31 and 178 to 233.
pub proof fn law_channel_frequency_band(channel: u16)
    ensures
        1 <= channel <= 14 ==> band_name_of_frequency(frequency_of_channel(channel))
            == "2.4GHz"@,
        32 <= channel <= 177 ==> band_name_of_frequency(frequency_of_channel(channel)) == "5GHz"@,
        (15 <= channel <= 31 || 178 <= channel <= 233) ==> band_name_of_frequency(
            frequency_of_channel(channel),
        ) == "6GHz"@,
        frequency_of_channel(channel) == 0 <==> (channel == 0 || channel > 233),
{
}

// ---------------------------------------------------------------------------
// Security
// ---------------------------------------------------------------------------

/// An open network: `--`, or a description that mentions open, none or 无.
pub open spec fn open_security(security: Seq<char>) -> bool {
    let n = lower(security);
    n == "--"@ || contains(n, "open"@) || contains(n, "none"@) || contains(n, "无"@)
}

/// An enterprise network: a description that mentions enterprise or 802.1x.
pub open spec fn enterprise_security(security: Seq<char>) -> bool {
    let n = lower(security);
    contains(n, "enterprise"@) || contains(n, "802.1x"@)
}

pub fn is_open_security(security: &str) -> (b: bool)
    ensures
        b == open_security(security@),
{
    let n = ascii_lowercase(&chars_of(security));
    is(&n, "--") || holds(&n, "open") || holds(&n, "none") || holds(&n, "无")
}

pub fn is_enterprise_security(security: &str) -> (b: bool)
    ensures
        b == enterprise_security(security@),
{
    let n = ascii_lowercase(&chars_of(security));
    holds(&n, "enterprise") || holds(&n, "802.1x")
}

// ---------------------------------------------------------------------------
// Building networks
// ---------------------------------------------------------------------------

/// The network that the parsers record for the given fields: an empty SSID
/// reads `<hidden>`, an empty security `Unknown`; frequency and band follow
/// from the channel, and a missing quality from the signal.
pub open spec fn network_of(
    ssid: Seq<char>,
    bssid: Seq<char>,
    signal_dbm: i32,
    channel: u16,
    security: Seq<char>,
    quality: Option<u8>,
) -> NetworkModel {
    let frequency = frequency_of_channel(channel);
    let security = if security.len() == 0 {
        "Unknown"@
    } else {
        security
    };
    NetworkModel {
        ssid: if ssid.len() == 0 {
            "<hidden>"@
        } else {
            ssid
        },
        bssid: bssid,
        signal_dbm: signal_dbm,
        quality: match quality {
            Some(q) => q,
            None => quality_of_dbm(signal_dbm),
        },
        channel: channel,
        frequency_mhz: frequency,
        band: band_name_of_frequency(frequency),
        security: security,
        is_open: open_security(security),
        is_enterprise: enterprise_security(security),
        is_connected: false,
    }
}

pub fn make_network(
    ssid: String,
    bssid: String,
    signal_dbm: i32,
    channel: u16,
    security: String,
    quality: Option<u8>,
) -> (r: WifiNetwork)
    ensures
        r@ == network_of(ssid@, bssid@, signal_dbm, channel, security@, quality),
{
    let frequency_mhz = channel_to_frequency(channel);
    let band = band_from_frequency(frequency_mhz);
    let security = if security.as_str().is_empty() {
        owned("Unknown")
    } else {
        security
    };
    let ssid = if ssid.as_str().is_empty() {
        owned("<hidden>")
    } else {
        ssid
    };
    let quality = match quality {
        Some(q) => q,
        None => dbm_to_quality(signal_dbm),
    };
    let is_open = is_open_security(security.as_str());
    let is_enterprise = is_enterprise_security(security.as_str());
    WifiNetwork {
        ssid,
        bssid,
        signal_dbm,
        quality,
        channel,
        frequency_mhz,
        band,
        security,
        is_open,
        is_enterprise,
        is_connected: false,
    }
}

/// A network re-read in an explicitly reported band: the band decides the
/// frequency and the band name.
pub open spec fn in_band(n: NetworkModel, band: Option<WifiBand>) -> NetworkModel {
    match band {
        Some(b) => NetworkModel { frequency_mhz: b.mhz(n.channel), band: b.name(), ..n },
        None => n,
    }
}

impl WifiNetwork {
    pub fn with_band(self, band: Option<WifiBand>) -> (r: WifiNetwork)
        ensures
            r@ == in_band(self@, band),
    {
        let mut n = self;
        match band {
            Some(b) => {
                n.frequency_mhz = b.frequency(n.channel);
                n.band = owned(b.label());
            },
            None => {},
        }
        n
    }
}

// ---------------------------------------------------------------------------
// Field readers
// ---------------------------------------------------------------------------

/// A MAC address: after trimming, six `:`-separated pairs of hex digits.
pub open spec fn is_mac(value: Seq<char>) -> bool {
    let parts = pieces(trim(value), is_char(':'));
    &&& parts.len() == 6
    &&& forall|i: int|
        0 <= i < 6 ==> (#[trigger] parts[i]).len() == 2 && is_hex_digit(parts[i][0])
            && is_hex_digit(parts[i][1])
}

pub fn is_mac_chars(value: &Vec<char>) -> (b: bool)
    ensures
        b == is_mac(value@),
{
    let clean = trim_chars(value);
    let parts = split_at_char(&clean, ':');
    if parts.len() != 6 {
        return false;
    }
    let mut i: usize = 0;
    while i < 6
        invariant
            parts.len() == 6,
            views(parts@) == pieces(trim(value@), is_char(':')),
            i <= 6,
            forall|j: int|
                0 <= j < i ==> (#[trigger] parts@[j]@).len() == 2 && is_hex_digit(parts@[j]@[0])
                    && is_hex_digit(parts@[j]@[1]),
        decreases 6 - i,
    {
        let part = &parts[i];
        assert(views(parts@)[i as int] == parts@[i as int]@);
        if part.len() != 2 || !hex_digit(part[0]) || !hex_digit(part[1]) {
            return false;
        }
        i += 1;
    }
    assert forall|j: int| 0 <= j < 6 implies (#[trigger] views(parts@)[j]).len() == 2
        && is_hex_digit(views(parts@)[j][0]) && is_hex_digit(views(parts@)[j][1]) by {
        assert(views(parts@)[j] == parts@[j]@);
    }
    true
}

pub fn is_mac_address(value: &str) -> (b: bool)
    ensures
        b == is_mac(value@),
{
    is_mac_chars(&chars_of(value))
}

/// The length of the run of ASCII digits that begins a text.
pub open spec fn digit_run(s: Seq<char>) -> nat
    decreases s.len(),
{
    if s.len() > 0 && is_digit(s[0]) {
        1 + digit_run(s.drop_first())
    } else {
        0
    }
}

/// The channel number at the start of a field: its leading digits read as a
/// `u16`.
pub open spec fn channel_number(value: Seq<char>) -> Option<u16> {
    match parse_unsigned(value.subrange(0, digit_run(value) as int), 65535) {
        Some(v) => Some(v as u16),
        None => None,
    }
}

pub fn parse_channel_chars(value: &Vec<char>) -> (r: Option<u16>)
    ensures
        r == channel_number(value@),
{
    let mut k: usize = 0;
    assert(value@.subrange(0, value.len() as int) =~= value@);
    while k < value.len() && digit(value[k])
        invariant
            k <= value.len(),
            digit_run(value@) == k + digit_run(value@.subrange(k as int, value.len() as int)),
        decreases value.len() - k,
    {
        assert(value@.subrange(k as int, value.len() as int).drop_first() =~= value@.subrange(
            k + 1,
            value.len() as int,
        ));
        k += 1;
    }
    let digits = copy_range(value, 0, k);
    match parse_uint(&digits, 65535) {
        Some(v) => Some(v as u16),
        None => None,
    }
}

pub fn parse_channel(value: &str) -> (r: Option<u16>)
    ensures
        r == channel_number(value@),
{
    parse_channel_chars(&chars_of(value))
}

/// A text with its whitespace removed.
pub open spec fn without_ws(s: Seq<char>) -> Seq<char>
    decreases s.len(),
{
    if s.len() == 0 {
        s
    } else if is_ws(s.last()) {
        without_ws(s.drop_last())
    } else {
        without_ws(s.drop_last()).push(s.last())
    }
}

/// The band a piece of a channel field names.
pub open spec fn band_word(piece: Seq<char>) -> Option<WifiBand> {
    let n = lower(without_ws(piece));
    if n == "2ghz"@ || n == "2.4ghz"@ {
        Some(WifiBand::Ghz2)
    } else if n == "5ghz"@ {
        Some(WifiBand::Ghz5)
    } else if n == "6ghz"@ {
        Some(WifiBand::Ghz6)
    } else {
        None
    }
}

pub open spec fn is_band_separator() -> spec_fn(char) -> bool {
    |c: char| c == '(' || c == ')' || c == ','
}

/// The first band named by a piece of the list.
pub open spec fn first_band(parts: Seq<Seq<char>>) -> Option<WifiBand>
    decreases parts.len(),
{
    if parts.len() == 0 {
        None
    } else {
        match band_word(parts[0]) {
            Some(b) => Some(b),
            None => first_band(parts.drop_first()),
        }
    }
}

/// The band a channel field names between `(`, `)` and `,`, as in
/// `37 (6GHz, 80MHz)` or `6 GHz`.
pub open spec fn channel_band(value: Seq<char>) -> Option<WifiBand> {
    first_band(pieces(value, is_band_separator()))
}

fn band_of_piece(piece: &Vec<char>) -> (r: Option<WifiBand>)
    ensures
        r == band_word(piece@),
{
    let mut kept: Vec<char> = Vec::new();
    let mut i: usize = 0;
    while i < piece.len()
        invariant
            i <= piece.len(),
            kept@ == without_ws(piece@.subrange(0, i as int)),
        decreases piece.len() - i,
    {
        let ghost before = piece@.subrange(0, i as int);
        assert(piece@.subrange(0, i + 1).drop_last() =~= before);
        if !whitespace(piece[i]) {
            kept.push(piece[i]);
        }
        i += 1;
    }
    assert(piece@.subrange(0, i as int) =~= piece@);
    let n = ascii_lowercase(&kept);
    if is(&n, "2ghz") || is(&n, "2.4ghz") {
        Some(WifiBand::Ghz2)
    } else if is(&n, "5ghz") {
        Some(WifiBand::Ghz5)
    } else if is(&n, "6ghz") {
        Some(WifiBand::Ghz6)
    } else {
        None
    }
}

fn split_band_pieces(s: &Vec<char>) -> (r: Vec<Vec<char>>)
    ensures
        views(r@) == pieces(s@, is_band_separator()),
{
    let mut r: Vec<Vec<char>> = Vec::new();
    let mut cur: Vec<char> = Vec::new();
    let mut i: usize = 0;
    let ghost sep = is_band_separator();
    assert(s@.subrange(0, s.len() as int) =~= s@);
    assert(views(r@) =~= seq![]);
    assert(cur@ =~= seq![]);
    assert(pieces(s@, sep) =~= views(r@) + pieces(s@, sep));
    while i < s.len()
        invariant
            i <= s.len(),
            sep == is_band_separator(),
            pieces(s@, sep) == views(r@) + pieces_from(
                s@.subrange(i as int, s.len() as int),
                sep,
                cur@,
            ),
        decreases s.len() - i,
    {
        let ghost rest = s@.subrange(i as int, s.len() as int);
        assert(rest.drop_first() =~= s@.subrange(i + 1, s.len() as int));
        let c = s[i];
        if c == '(' || c == ')' || c == ',' {
            let ghost before = views(r@);
            let ghost piece = cur@;
            r.push(cur);
            assert(views(r@) =~= before.push(piece));
            assert(views(r@) + pieces_from(rest.drop_first(), sep, seq![]) =~= before + (seq![
                piece,
            ] + pieces_from(rest.drop_first(), sep, seq![])));
            cur = Vec::new();
            assert(cur@ =~= seq![]);
        } else {
            cur.push(c);
        }
        i += 1;
    }
    assert(s@.subrange(i as int, s.len() as int) =~= seq![]);
    let ghost before = views(r@);
    r.push(cur);
    assert(views(r@) =~= before + seq![cur@]);
    r
}

pub fn parse_channel_band_chars(value: &Vec<char>) -> (r: Option<WifiBand>)
    ensures
        r == channel_band(value@),
{
    let parts = split_band_pieces(value);
    let mut i: usize = 0;
    assert(views(parts@).subrange(0, parts.len() as int) =~= views(parts@));
    while i < parts.len()
        invariant
            i <= parts.len(),
            channel_band(value@) == first_band(
                views(parts@).subrange(i as int, parts.len() as int),
            ),
        decreases parts.len() - i,
    {
        let ghost rest = views(parts@).subrange(i as int, parts.len() as int);
        assert(rest.drop_first() =~= views(parts@).subrange(i + 1, parts.len() as int));
        assert(rest[0] == parts@[i as int]@);
        let b = band_of_piece(&parts[i]);
        if b.is_some() {
            return b;
        }
        i += 1;
    }
    None
}

pub fn parse_channel_band(value: &str) -> (r: Option<WifiBand>)
    ensures
        r == channel_band(value@),
{
    parse_channel_band_chars(&chars_of(value))
}

/// A line that gives a band in `netsh` output (English or Chinese field name).
pub open spec fn netsh_band_field(line: Seq<char>) -> bool {
    starts_with(line, "Band"@) || starts_with(line, "频段"@) || starts_with(line, "频带"@)
        || starts_with(line, "波段"@)
}

pub fn is_netsh_band_field_chars(line: &Vec<char>) -> (b: bool)
    ensures
        b == netsh_band_field(line@),
{
    begins(line, "Band") || begins(line, "频段") || begins(line, "频带") || begins(line, "波段")
}

pub fn is_netsh_band_field(line: &str) -> (b: bool)
    ensures
        b == netsh_band_field(line@),
{
    is_netsh_band_field_chars(&chars_of(line))
}

/// An SSID that cannot be shown: empty, `<hidden>` or `<redacted>` (after
/// trimming, in any ASCII case).
pub open spec fn non_displayable(ssid: Seq<char>) -> bool {
    let n = lower(trim(ssid));
    n.len() == 0 || n == "<hidden>"@ || n == "<redacted>"@
}

pub fn is_non_displayable_ssid(ssid: &str) -> (b: bool)
    ensures
        b == non_displayable(ssid@),
{
    let n = ascii_lowercase(&trim_chars(&chars_of(ssid)));
    n.len() == 0 || is(&n, "<hidden>") || is(&n, "<redacted>")
}

/// Some network in the list has a displayable SSID.
pub open spec fn any_displayable(networks: Seq<NetworkModel>) -> bool {
    exists|i: int| 0 <= i < networks.len() && !non_displayable(#[trigger] networks[i].ssid)
}

pub fn has_displayable_ssid(networks: &Vec<WifiNetwork>) -> (b: bool)
    ensures
        b == any_displayable(models(networks@)),
{
    let mut i: usize = 0;
    while i < networks.len()
        invariant
            i <= networks.len(),
            forall|j: int| 0 <= j < i ==> non_displayable(#[trigger] networks@[j].ssid@),
        decreases networks.len() - i,
    {
        if !is_non_displayable_ssid(networks[i].ssid.as_str()) {
            assert(models(networks@)[i as int].ssid == networks@[i as int].ssid@);
            return true;
        }
        i += 1;
    }
    assert forall|j: int| 0 <= j < networks.len() implies non_displayable(
        #[trigger] models(networks@)[j].ssid,
    ) by {
        assert(models(networks@)[j].ssid == networks@[j].ssid@);
    }
    false
}

/// The first word of a field that reads as an `i32`.
pub open spec fn first_i32(parts: Seq<Seq<char>>) -> Option<i32>
    decreases parts.len(),
{
    if parts.len() == 0 {
        None
    } else {
        match parse_i32(parts[0]) {
            Some(v) => Some(v as i32),
            None => first_i32(parts.drop_first()),
        }
    }
}

/// The signal in a field such as `-48 dBm / -95 dBm`: its first whitespace
/// separated word that reads as an integer.
pub open spec fn signal_in(value: Seq<char>) -> Option<i32> {
    first_i32(words(value))
}

pub fn parse_signal_dbm_chars(value: &Vec<char>) -> (r: Option<i32>)
    ensures
        r == signal_in(value@),
{
    let parts = split_whitespace(value);
    let mut i: usize = 0;
    assert(views(parts@).subrange(0, parts.len() as int) =~= views(parts@));
    while i < parts.len()
        invariant
            i <= parts.len(),
            signal_in(value@) == first_i32(views(parts@).subrange(i as int, parts.len() as int)),
        decreases parts.len() - i,
    {
        let ghost rest = views(parts@).subrange(i as int, parts.len() as int);
        assert(rest.drop_first() =~= views(parts@).subrange(i + 1, parts.len() as int));
        assert(rest[0] == parts@[i as int]@);
        let v = parse_int32(&parts[i]);
        if v.is_some() {
            return v;
        }
        i += 1;
    }
    None
}

pub fn parse_signal_dbm(value: &str) -> (r: Option<i32>)
    ensures
        r == signal_in(value@),
{
    parse_signal_dbm_chars(&chars_of(value))
}

/// What `str::to_lowercase` makes of a text (its Unicode lower case).
pub uninterp spec fn unicode_lowercase(s: Seq<char>) -> Seq<char>;

/// Calls `str::to_lowercase`. The contract claims that the result is a
/// function of the argument alone (`unicode_lowercase`) and holds no ASCII
/// capital letter: `A` to `Z` have lower-case mappings, and no character's
/// lower-case mapping yields one. Which other characters the Unicode mapping
/// gives is left unsaid.
#[verifier::external_body]
pub(crate) fn to_lowercase(s: &str) -> (r: String)
    ensures
        r@ == unicode_lowercase(s@),
        lower(r@) == r@,
{
    s.to_lowercase()
}

// ---------------------------------------------------------------------------
// Synthetic BSSIDs
// ---------------------------------------------------------------------------

pub open spec fn fnv_step(h: u64, b: u8) -> u64 {
    (h ^ (b as u64)).wrapping_mul(0x100000001b3u64)
}

/// The 64-bit FNV-1a hash of a byte string.
pub open spec fn fnv1a(bytes: Seq<u8>) -> u64 {
    bytes.fold_left(0xcbf29ce484222325u64, |h: u64, b: u8| fnv_step(h, b))
}

pub open spec fn be_u16(x: u16) -> Seq<u8> {
    seq![(x >> 8u16) as u8, (x & 0xffu16) as u8]
}

pub open spec fn be_u64(x: u64) -> Seq<u8> {
    Seq::new(8, |i: int| ((x >> ((56 - 8 * i) as u64)) & 0xffu64) as u8)
}

pub open spec fn hex_char(d: u64) -> char {
    if d < 10 {
        (('0' as u32) + d) as char
    } else {
        (('a' as u32) + d - 10) as char
    }
}

/// Two lower-case hex digits of a byte value, as `{:02x}` writes it.
pub open spec fn hex_pair(b: u64) -> Seq<char> {
    seq![hex_char(b / 16), hex_char(b % 16)]
}

/// A locally administered MAC address derived from an SSID, a channel and a
/// salt, for networks whose BSSID the system did not report: `02:` followed by
/// the low five bytes of the FNV-1a hash of the SSID's UTF-8 bytes, the channel
/// and the salt (both big-endian).
pub open spec fn synthetic(ssid: Seq<char>, channel: u16, salt: usize) -> Seq<char> {
    let h = fnv1a(encode_utf8(ssid) + be_u16(channel) + be_u64(salt as u64));
    seq!['0', '2', ':'] + hex_pair((h >> 32u64) & 0xffu64) + seq![':'] + hex_pair(
        (h >> 24u64) & 0xffu64,
    ) + seq![':'] + hex_pair((h >> 16u64) & 0xffu64) + seq![':'] + hex_pair(
        (h >> 8u64) & 0xffu64,
    ) + seq![':'] + hex_pair(h & 0xffu64)
}

fn hex_digit_char(d: u64) -> (c: char)
    requires
        d < 16,
    ensures
        c == hex_char(d),
{
    if d < 10 {
        ((d as u8) + 48u8) as char
    } else {
        ((d as u8) + 87u8) as char
    }
}

fn push_hex_pair(out: &mut Vec<char>, b: u64)
    requires
        b < 256,
    ensures
        final(out)@ == old(out)@ + hex_pair(b),
{
    out.push(hex_digit_char(b / 16));
    out.push(hex_digit_char(b % 16));
}

proof fn lemma_byte_mask(x: u64)
    ensures
        x & 0xffu64 < 256,
{
    assert(x & 0xffu64 < 256) by (bit_vector);
}

// ---------------------------------------------------------------------------
// Shape of MAC addresses
// ---------------------------------------------------------------------------

/// A MAC address is not empty.
pub proof fn lemma_mac_nonempty(b: Seq<char>)
    requires
        is_mac(b),
    ensures
        b.len() > 0,
{
    if b.len() == 0 {
        assert(trim_start(b) == b);
        assert(trim_end(b) == b);
        assert(pieces(trim(b), is_char(':')) =~= seq![Seq::<char>::empty()]);
    }
}

/// The ASCII lower case of a MAC address is a MAC address, and stays as it is
/// when lower-cased again.
pub proof fn lemma_mac_lower(v: Seq<char>)
    requires
        is_mac(v),
    ensures
        is_mac(lower(v)),
        lower(lower(v)) == lower(v),
{
    lemma_lower_idempotent(v);
    lemma_trim_lower(v);
    assert(lower(Seq::<char>::empty()) =~= Seq::<char>::empty());
    lemma_pieces_lower(trim(v), seq![]);
    let parts = pieces(trim(v), is_char(':'));
    let lparts = pieces(trim(lower(v)), is_char(':'));
    assert(lparts == parts.map_values(|p: Seq<char>| lower(p)));
    assert forall|i: int| 0 <= i < 6 implies (#[trigger] lparts[i]).len() == 2 && is_hex_digit(
        lparts[i][0],
    ) && is_hex_digit(lparts[i][1]) by {
        assert(lparts[i] == lower(parts[i]));
        assert(parts[i].len() == 2);
        assert(lparts[i][0] == lower_char(parts[i][0]));
        assert(lparts[i][1] == lower_char(parts[i][1]));
    }
}

proof fn lemma_hex_pair(b: u64)
    requires
        b < 256,
    ensures
        hex_pair(b).len() == 2,
        forall|i: int|
            0 <= i < 2 ==> is_hex_digit(#[trigger] hex_pair(b)[i]) && hex_pair(b)[i] != ':'
                && !is_ws(hex_pair(b)[i]),
        lower(hex_pair(b)) == hex_pair(b),
{
    assert(b / 16 < 16);
    assert(b % 16 < 16);
    assert(lower(hex_pair(b)) =~= hex_pair(b));
}

/// Every synthetic BSSID is a lower-case MAC address of 17 characters that
/// begins `02:` (a locally administered address).
pub proof fn law_synthetic_bssid_is_a_lowercase_mac(ssid: Seq<char>, channel: u16, salt: usize)
    ensures
        is_mac(synthetic(ssid, channel, salt)),
        lower(synthetic(ssid, channel, salt)) == synthetic(ssid, channel, salt),
        synthetic(ssid, channel, salt).len() == 17,
        synthetic(ssid, channel, salt).subrange(0, 3) == seq!['0', '2', ':'],
{
    let h = fnv1a(encode_utf8(ssid) + be_u16(channel) + be_u64(salt as u64));
    let b1 = (h >> 32u64) & 0xffu64;
    let b2 = (h >> 24u64) & 0xffu64;
    let b3 = (h >> 16u64) & 0xffu64;
    let b4 = (h >> 8u64) & 0xffu64;
    let b5 = h & 0xffu64;
    assert(b1 < 256 && b2 < 256 && b3 < 256 && b4 < 256 && b5 < 256) by (bit_vector)
        requires
            b1 == (h >> 32u64) & 0xffu64,
            b2 == (h >> 24u64) & 0xffu64,
            b3 == (h >> 16u64) & 0xffu64,
            b4 == (h >> 8u64) & 0xffu64,
            b5 == h & 0xffu64,
    ;
    lemma_hex_pair(b1);
    lemma_hex_pair(b2);
    lemma_hex_pair(b3);
    lemma_hex_pair(b4);
    lemma_hex_pair(b5);
    let (p1, p2, p3, p4, p5) = (hex_pair(b1), hex_pair(b2), hex_pair(b3), hex_pair(b4), hex_pair(b5));
    let c = seq![':'];
    let head = seq!['0', '2'];
    let t4 = p4 + c + p5;
    let t3 = p3 + c + t4;
    let t2 = p2 + c + t3;
    let t1 = p1 + c + t2;
    let s = synthetic(ssid, channel, salt);
    assert(s =~= head + c + t1);
    assert(s.len() == 17);
    assert(s.subrange(0, 3) =~= seq!['0', '2', ':']);
    // No whitespace at either end, so trimming keeps it.
    assert(s[0] == '0');
    assert(s.last() == p5[1]);
    assert(trim_start(s) == s);
    assert(trim_end(s) == s);
    // The pieces at `:`.
    let sep = is_char(':');
    lemma_pieces_split(head, t1, seq![]);
    lemma_pieces_split(p1, t2, seq![]);
    lemma_pieces_split(p2, t3, seq![]);
    lemma_pieces_split(p3, t4, seq![]);
    lemma_pieces_split(p4, p5, seq![]);
    lemma_pieces_whole(p5, seq![]);
    let parts = pieces(s, sep);
    assert(Seq::<char>::empty() + head =~= head);
    assert(Seq::<char>::empty() + p1 =~= p1);
    assert(Seq::<char>::empty() + p2 =~= p2);
    assert(Seq::<char>::empty() + p3 =~= p3);
    assert(Seq::<char>::empty() + p4 =~= p4);
    assert(Seq::<char>::empty() + p5 =~= p5);
    assert(parts =~= seq![head, p1, p2, p3, p4, p5]);
    assert(is_hex_digit(head[0]) && is_hex_digit(head[1]));
    assert(is_mac(s));
    // Every character is already lower case.
    lemma_lower_add(head + c, t1);
    lemma_lower_add(head, c);
    lemma_lower_add(p1 + c, t2);
    lemma_lower_add(p1, c);
    lemma_lower_add(p2 + c, t3);
    lemma_lower_add(p2, c);
    lemma_lower_add(p3 + c, t4);
    lemma_lower_add(p3, c);
    lemma_lower_add(p4 + c, p5);
    lemma_lower_add(p4, c);
    assert(lower(head) =~= head);
    assert(lower(c) =~= c);
}

pub fn synthetic_bssid(ssid: &str, channel: u16, salt: usize) -> (r: String)
    ensures
        r@ == synthetic(ssid@, channel, salt),
{
    let ssid_bytes = ssid.as_bytes();
    let mut bytes: Vec<u8> = Vec::new();
    for i in 0..ssid_bytes.len()
        invariant
            ssid_bytes@ == encode_utf8(ssid@),
            bytes@ == ssid_bytes@.subrange(0, i as int),
    {
        bytes.push(ssid_bytes[i]);
        assert(bytes@ =~= ssid_bytes@.subrange(0, i + 1));
    }
    assert(bytes@ =~= encode_utf8(ssid@));
    bytes.push((channel >> 8u16) as u8);
    bytes.push((channel & 0xffu16) as u8);
    let salt64 = salt as u64;
    let ghost prefix = bytes@;
    for k in 0..8usize
        invariant
            bytes@ == prefix + be_u64(salt64).subrange(0, k as int),
    {
        let shift: u64 = 56 - 8 * (k as u64);
        bytes.push(((salt64 >> shift) & 0xffu64) as u8);
        assert(bytes@ =~= prefix + be_u64(salt64).subrange(0, k + 1));
    }
    assert(be_u64(salt64).subrange(0, 8) =~= be_u64(salt64));
    assert(bytes@ =~= encode_utf8(ssid@) + be_u16(channel) + be_u64(salt as u64));
    let ghost all = bytes@;
    let mut hash: u64 = 0xcbf29ce484222325u64;
    for i in 0..bytes.len()
        invariant
            bytes@ == all,
            hash == all.subrange(0, i as int).fold_left(
                0xcbf29ce484222325u64,
                |h: u64, b: u8| fnv_step(h, b),
            ),
    {
        assert(all.subrange(0, i + 1).drop_last() =~= all.subrange(0, i as int));
        hash = (hash ^ (bytes[i] as u64)).wrapping_mul(0x100000001b3u64);
    }
    assert(all.subrange(0, all.len() as int) =~= all);
    proof {
        lemma_byte_mask(hash >> 32u64);
        lemma_byte_mask(hash >> 24u64);
        lemma_byte_mask(hash >> 16u64);
        lemma_byte_mask(hash >> 8u64);
        lemma_byte_mask(hash);
    }
    let mut out: Vec<char> = Vec::new();
    out.push('0');
    out.push('2');
    out.push(':');
    push_hex_pair(&mut out, (hash >> 32u64) & 0xffu64);
    out.push(':');
    push_hex_pair(&mut out, (hash >> 24u64) & 0xffu64);
    out.push(':');
    push_hex_pair(&mut out, (hash >> 16u64) & 0xffu64);
    out.push(':');
    push_hex_pair(&mut out, (hash >> 8u64) & 0xffu64);
    out.push(':');
    push_hex_pair(&mut out, hash & 0xffu64);
    assert(out@ =~= synthetic(ssid@, channel, salt));
    string_from_chars(out)
}

// ---------------------------------------------------------------------------
// Scan results and scan failures
// ---------------------------------------------------------------------------

/// The number of scanned access points on one channel of one band.
#[derive(Debug, Clone)]
pub struct ChannelDistribution {
    pub band: String,
    pub channel: u16,
    pub network_count: usize,
}

/// A finished scan.
#[derive(Debug, Clone)]
pub struct ScanResult {
    pub scanned_at: String,
    pub source: String,
    pub networks: Vec<WifiNetwork>,
    pub channel_distribution: Vec<ChannelDistribution>,
}

#[derive(Debug, Clone, Copy, PartialEq, Eq, Structural)]
pub enum ScanIssueCode {
    LocationPermissionRequired,
    LocationPermissionDenied,
    LocationServicesDisabled,
    WifiDisabled,
    AdapterUnavailable,
    UnsupportedPlatform,
    ScanFailed,
}

#[derive(Debug, Clone, Copy, PartialEq, Eq, Structural)]
pub enum ScanRecoveryAction {
    RequestLocationPermission,
    OpenLocationSettings,
    OpenWifiSettings,
    Retry,
}

/// Why a scan gave no networks, with what the user can do about it.
#[derive(Debug, Clone)]
pub struct ScanError {
    pub code: ScanIssueCode,
    pub title: String,
    pub message: String,
    pub recovery_action: Option<ScanRecoveryAction>,
    pub details: Option<String>,
}

pub struct ScanErrorModel {
    pub code: ScanIssueCode,
    pub title: Seq<char>,
    pub message: Seq<char>,
    pub recovery_action: Option<ScanRecoveryAction>,
    pub details: Option<Seq<char>>,
}

impl View for ScanError {
    type V = ScanErrorModel;

    open spec fn view(&self) -> ScanErrorModel {
        ScanErrorModel {
            code: self.code,
            title: self.title@,
            message: self.message@,
            recovery_action: self.recovery_action,
            details: opt_view(self.details),
        }
    }
}

pub open spec fn scan_failure(details: Seq<char>) -> ScanErrorModel {
    ScanErrorModel {
        code: ScanIssueCode::ScanFailed,
        title: "扫描失败"@,
        message: "系统没有返回可用的 WiFi 扫描结果，请稍后重试。"@,
        recovery_action: Some(ScanRecoveryAction::Retry),
        details: Some(details),
    }
}

impl ScanError {
    pub fn new(
        code: ScanIssueCode,
        title: String,
        message: String,
        recovery_action: Option<ScanRecoveryAction>,
        details: Option<String>,
    ) -> (r: ScanError)
        ensures
            r@ == (ScanErrorModel {
                code: code,
                title: title@,
                message: message@,
                recovery_action: recovery_action,
                details: opt_view(details),
            }),
    {
        ScanError { code, title, message, recovery_action, details }
    }

    /// The generic failure: the system returned no usable scan.
    pub fn scan_failed(details: String) -> (r: ScanError)
        ensures
            r@ == scan_failure(details@),
    {
        ScanError::new(
            ScanIssueCode::ScanFailed,
            owned("扫描失败"),
            owned("系统没有返回可用的 WiFi 扫描结果，请稍后重试。"),
            Some(ScanRecoveryAction::Retry),
            Some(details),
        )
    }
}

} // verus!
