//! Reading what `ping` and `route` print: the packet loss, the average
//! latency, whether the target answered, and the default gateway.
use vstd::prelude::*;
use crate::decimal::{
    parse_rounded, parsed_rounded, plain_decimal, pow10, read_plain_decimal, rounded,
};
use crate::command_text::{decode, utf8_lossy};
use crate::diagnostics::PingMetrics;
use crate::text::{
    after_prefix, all_digits, ascii_lowercase, chars_of, contains, copy_range, digit, digit_value,
    digits_at_most, digits_value, first_index, holds, index_of, is_char, is_digit, last_index,
    lines, lower, pieces, rindex_of, split_at_char, string_from_chars, strip_prefix, text_lines,
    trim, trim_chars, trim_end, trim_start, views, whitespace,
};

verus! {

// ---------------------------------------------------------------------------
// Packet loss
// ---------------------------------------------------------------------------

/// A character that may belong to a written percentage: a digit, a decimal
/// point or a decimal comma.
pub open spec fn is_number_char(c: char) -> bool {
    is_digit(c) || c == '.' || c == ','
}

/// The longest run of number characters at the end of `s`.
pub open spec fn number_tail(s: Seq<char>) -> Seq<char>
    decreases s.len(),
{
    if s.len() > 0 && is_number_char(s.last()) {
        number_tail(s.drop_last()).push(s.last())
    } else {
        seq![]
    }
}

pub open spec fn point_for_comma(c: char) -> char {
    if c == ',' {
        '.'
    } else {
        c
    }
}

/// A decimal comma read as a decimal point.
pub open spec fn commas_to_points(s: Seq<char>) -> Seq<char> {
    s.map_values(|c: char| point_for_comma(c))
}

/// A percentage written as a plain decimal, when its value lies in
/// `0..=100`, rounded half up to a whole number.
pub open spec fn percent_value(t: Seq<char>) -> Option<u8> {
    match plain_decimal(t) {
        Some((w, f)) => if digits_value(w) < 100 || (digits_value(w) == 100 && digits_value(f) == 0) {
            Some(rounded(w + f, w.len() as int) as u8)
        } else {
            None
        },
        None => None,
    }
}

/// The loss a `%` stands for when `before` is the text in front of it: the
/// number written right before it, whitespace between them allowed.
pub open spec fn loss_before(before: Seq<char>) -> Option<u8> {
    percent_value(commas_to_points(number_tail(trim_end(before))))
}

pub open spec fn packet_loss_from(raw: Seq<char>, i: int) -> Option<u8>
    decreases raw.len() - i,
{
    if i < 0 || i >= raw.len() {
        None
    } else if raw[i] == '%' && loss_before(raw.subrange(0, i)) is Some {
        loss_before(raw.subrange(0, i))
    } else {
        packet_loss_from(raw, i + 1)
    }
}

/// The packet loss a ping output reports: the first `%` that follows a
/// number in `0..=100`.
pub open spec fn packet_loss(raw: Seq<char>) -> Option<u8> {
    packet_loss_from(raw, 0)
}

proof fn lemma_rounded_split(w: Seq<char>, f: Seq<char>)
    requires
        all_digits(w),
        all_digits(f),
    ensures
        rounded(w + f, w.len() as int) == digits_value(w) + (if f.len() > 0 && digit_value(f[0])
            >= 5 {
            1nat
        } else {
            0nat
        }),
{
    let d = w + f;
    let p = w.len() as int;
    if f.len() > 0 {
        assert(d[p] == f[0]);
        assert(crate::decimal::first_fraction_digit(d, p) == digit_value(f[0]));
    } else {
        assert(crate::decimal::first_fraction_digit(d, p) == 0);
    }
    if w.len() == 0 {
        assert(digits_value(w) == 0);
        assert(crate::decimal::whole_part(d, p) == 0);
    } else if f.len() == 0 {
        assert(d =~= w);
        assert(pow10(0) == 1);
        assert(crate::decimal::whole_part(d, p) == digits_value(w) * pow10(0));
        assert(crate::decimal::whole_part(d, p) == digits_value(w));
    } else {
        assert(d.subrange(0, p) =~= w);
        assert(crate::decimal::whole_part(d, p) == digits_value(w));
    }
}

proof fn lemma_zero_digits(s: Seq<char>)
    requires
        all_digits(s),
    ensures
        digits_value(s) == 0 <==> forall|i: int| 0 <= i < s.len() ==> s[i] == '0',
{
    crate::decimal::lemma_digits_zero(s);
}

fn all_zero(s: &Vec<char>) -> (r: bool)
    ensures
        r == forall|i: int| 0 <= i < s.len() ==> s@[i] == '0',
{
    let mut i: usize = 0;
    while i < s.len()
        invariant
            i <= s.len(),
            forall|j: int| 0 <= j < i ==> s@[j] == '0',
        decreases s.len() - i,
    {
        if s[i] != '0' {
            return false;
        }
        i += 1;
    }
    true
}

fn percent_of(t: &Vec<char>) -> (r: Option<u8>)
    ensures
        r == percent_value(t@),
{
    let (w, f) = match read_plain_decimal(t) {
        Some(parts) => parts,
        None => return None,
    };
    assert(all_digits(w@) && all_digits(f@));
    let whole: u64 = if w.len() == 0 {
        0
    } else {
        assert(w@.subrange(0, w.len() as int) =~= w@);
        match digits_at_most(&w, 0, 100) {
            Some(v) => v,
            None => return None,
        }
    };
    assert(whole == digits_value(w@));
    proof {
        lemma_zero_digits(f@);
        lemma_rounded_split(w@, f@);
    }
    if whole == 100 && !all_zero(&f) {
        return None;
    }
    let up: u64 = if f.len() > 0 && f[0] >= '5' {
        1
    } else {
        0
    };
    Some((whole + up) as u8)
}

/// `loss_before` of `raw[..end]`.
fn loss_before_at(raw: &Vec<char>, end: usize) -> (r: Option<u8>)
    requires
        end <= raw.len(),
    ensures
        r == loss_before(raw@.subrange(0, end as int)),
{
    let mut j: usize = end;
    while j > 0 && whitespace(raw[j - 1])
        invariant
            j <= end <= raw.len(),
            trim_end(raw@.subrange(0, end as int)) == trim_end(raw@.subrange(0, j as int)),
        decreases j,
    {
        assert(raw@.subrange(0, j as int).drop_last() =~= raw@.subrange(0, j - 1));
        j -= 1;
    }
    if j > 0 {
        assert(raw@.subrange(0, j as int).last() == raw@[j - 1]);
    }
    assert(trim_end(raw@.subrange(0, j as int)) == raw@.subrange(0, j as int));
    let mut k: usize = j;
    assert(raw@.subrange(0, j as int) + raw@.subrange(j as int, j as int) =~= raw@.subrange(
        0,
        j as int,
    ));
    assert(number_tail(raw@.subrange(0, j as int)) + raw@.subrange(j as int, j as int)
        =~= number_tail(raw@.subrange(0, j as int)));
    while k > 0 && (digit(raw[k - 1]) || raw[k - 1] == '.' || raw[k - 1] == ',')
        invariant
            k <= j <= raw.len(),
            number_tail(raw@.subrange(0, j as int)) == number_tail(raw@.subrange(0, k as int))
                + raw@.subrange(k as int, j as int),
        decreases k,
    {
        let ghost s = raw@.subrange(0, k as int);
        assert(s.drop_last() =~= raw@.subrange(0, k - 1));
        assert(s.last() == raw@[k - 1]);
        assert(number_tail(raw@.subrange(0, k - 1)) + raw@.subrange(k - 1, j as int)
            =~= number_tail(raw@.subrange(0, k - 1)).push(raw@[k - 1]) + raw@.subrange(
            k as int,
            j as int,
        ));
        k -= 1;
    }
    if k > 0 {
        assert(raw@.subrange(0, k as int).last() == raw@[k - 1]);
    }
    assert(number_tail(raw@.subrange(0, k as int)) =~= seq![]);
    assert(number_tail(raw@.subrange(0, j as int)) =~= raw@.subrange(k as int, j as int));
    let mut t: Vec<char> = Vec::new();
    let mut i: usize = k;
    while i < j
        invariant
            k <= i <= j <= raw.len(),
            t@ == commas_to_points(raw@.subrange(k as int, i as int)),
        decreases j - i,
    {
        let c = raw[i];
        t.push(
            if c == ',' {
                '.'
            } else {
                c
            },
        );
        i += 1;
        assert(t@ =~= commas_to_points(raw@.subrange(k as int, i as int)));
    }
    percent_of(&t)
}

/// The packet loss a ping output reports, as a whole percentage.
pub fn parse_packet_loss(raw: &str) -> (r: Option<u8>)
    ensures
        r == packet_loss(raw@),
{
    let chars = chars_of(raw);
    let mut i: usize = 0;
    while i < chars.len()
        invariant
            i <= chars.len(),
            chars@ == raw@,
            packet_loss(raw@) == packet_loss_from(raw@, i as int),
        decreases chars.len() - i,
    {
        if chars[i] == '%' {
            let found = loss_before_at(&chars, i);
            if found.is_some() {
                return found;
            }
        }
        i += 1;
    }
    None
}

// ---------------------------------------------------------------------------
// Average latency
// ---------------------------------------------------------------------------

/// The longest run of digits and decimal points at the start of `s`.
pub open spec fn numeric_prefix(s: Seq<char>) -> Seq<char>
    decreases s.len(),
{
    if s.len() > 0 && (is_digit(s[0]) || s[0] == '.') {
        seq![s[0]] + numeric_prefix(s.drop_first())
    } else {
        seq![]
    }
}

/// What one line of ping output says of the average latency: `Some(answer)`
/// when reading stops at this line with `answer`, `None` when it goes on to
/// the next line.
///
/// A `min/avg/max` line (in any ASCII case) ends the reading: the second
/// `/`-separated value after its first `=` is the average. A line naming the
/// `average` (in any ASCII case) or `平均` gives the number after its last
/// `=`; a line of that kind without `=` ends the reading with nothing, and
/// one whose number does not read goes on.
pub open spec fn latency_line(l: Seq<char>) -> Option<Option<u32>> {
    if contains(lower(l), "min/avg/max"@) {
        Some(
            match first_index(l, '=') {
                None => None,
                Some(e) => {
                    let ps = pieces(trim(l.subrange(e + 1, l.len() as int)), is_char('/'));
                    if ps.len() < 2 {
                        None
                    } else {
                        parsed_rounded(trim(ps[1]))
                    }
                },
            },
        )
    } else if contains(lower(l), "average"@) || contains(l, "平均"@) {
        match last_index(l, '=') {
            None => Some(None),
            Some(e) => match parsed_rounded(
                numeric_prefix(trim_start(l.subrange(e + 1, l.len() as int))),
            ) {
                Some(v) => Some(Some(v)),
                None => None,
            },
        }
    } else {
        None
    }
}

pub open spec fn latency_from(ls: Seq<Seq<char>>) -> Option<u32>
    decreases ls.len(),
{
    if ls.len() == 0 {
        None
    } else {
        match latency_line(ls[0]) {
            Some(answer) => answer,
            None => latency_from(ls.drop_first()),
        }
    }
}

/// The average round-trip time a ping output reports, in whole milliseconds.
pub open spec fn average_latency(raw: Seq<char>) -> Option<u32> {
    latency_from(lines(raw))
}

/// `numeric_prefix(trim_start(s))`.
fn leading_number(s: &Vec<char>) -> (r: Vec<char>)
    ensures
        r@ == numeric_prefix(trim_start(s@)),
{
    let n = s.len();
    let mut i: usize = 0;
    assert(s@.subrange(0, n as int) =~= s@);
    while i < n && whitespace(s[i])
        invariant
            i <= n == s.len(),
            trim_start(s@) == trim_start(s@.subrange(i as int, n as int)),
        decreases n - i,
    {
        assert(s@.subrange(i as int, n as int).drop_first() =~= s@.subrange(i + 1, n as int));
        i += 1;
    }
    if i < n {
        assert(s@.subrange(i as int, n as int)[0] == s@[i as int]);
    }
    assert(trim_start(s@) == s@.subrange(i as int, n as int));
    let mut j: usize = i;
    assert(s@.subrange(i as int, i as int) + numeric_prefix(s@.subrange(i as int, n as int))
        =~= numeric_prefix(s@.subrange(i as int, n as int)));
    while j < n && (digit(s[j]) || s[j] == '.')
        invariant
            i <= j <= n == s.len(),
            numeric_prefix(s@.subrange(i as int, n as int)) == s@.subrange(i as int, j as int)
                + numeric_prefix(s@.subrange(j as int, n as int)),
        decreases n - j,
    {
        let ghost rest = s@.subrange(j as int, n as int);
        assert(rest[0] == s@[j as int]);
        assert(rest.drop_first() =~= s@.subrange(j + 1, n as int));
        assert(s@.subrange(i as int, j as int) + (seq![s@[j as int]] + numeric_prefix(
            rest.drop_first(),
        )) =~= s@.subrange(i as int, j + 1) + numeric_prefix(s@.subrange(j + 1, n as int)));
        j += 1;
    }
    if j < n {
        assert(s@.subrange(j as int, n as int)[0] == s@[j as int]);
    }
    assert(numeric_prefix(s@.subrange(j as int, n as int)) =~= seq![]);
    assert(s@.subrange(i as int, j as int) + seq![] =~= s@.subrange(i as int, j as int));
    copy_range(s, i, j)
}

fn latency_of_line(l: &Vec<char>) -> (r: Option<Option<u32>>)
    ensures
        r == latency_line(l@),
{
    let low = ascii_lowercase(l);
    if holds(&low, "min/avg/max") {
        let e = match index_of(l, '=') {
            Some(e) => e,
            None => return Some(None),
        };
        let values = trim_chars(&copy_range(l, e + 1, l.len()));
        let ps = split_at_char(&values, '/');
        if ps.len() < 2 {
            return Some(None);
        }
        assert(views(ps@)[1] == ps@[1]@);
        let average = trim_chars(&ps[1]);
        return Some(parse_rounded(&average));
    }
    if holds(&low, "average") || holds(l, "平均") {
        let e = match rindex_of(l, '=') {
            Some(e) => e,
            None => return Some(None),
        };
        let number = leading_number(&copy_range(l, e + 1, l.len()));
        return match parse_rounded(&number) {
            Some(v) => Some(Some(v)),
            None => None,
        };
    }
    None
}

/// The average round-trip time a ping output reports, in whole milliseconds.
pub fn parse_average_latency(raw: &str) -> (r: Option<u32>)
    ensures
        r == average_latency(raw@),
{
    let ls = text_lines(raw);
    let n = ls.len();
    let mut i: usize = 0;
    assert(views(ls@).subrange(0, n as int) =~= views(ls@));
    while i < n
        invariant
            i <= n == ls.len(),
            views(ls@) == lines(raw@),
            average_latency(raw@) == latency_from(views(ls@).subrange(i as int, n as int)),
        decreases n - i,
    {
        let ghost rest = views(ls@).subrange(i as int, n as int);
        assert(rest.drop_first() =~= views(ls@).subrange(i + 1, n as int));
        assert(rest[0] == ls@[i as int]@);
        match latency_of_line(&ls[i]) {
            Some(answer) => return answer,
            None => {},
        }
        i += 1;
    }
    None
}

// ---------------------------------------------------------------------------
// One ping run
// ---------------------------------------------------------------------------

/// Whether the target answered: by the reported loss when there is one (any
/// loss short of all packets), else by the command's own success.
pub open spec fn reachable(loss: Option<u8>, command_succeeded: bool) -> bool {
    match loss {
        Some(l) => l < 100,
        None => command_succeeded,
    }
}

/// What a ping output shows.
pub fn parse_ping_metrics(raw: &str, command_succeeded: bool) -> (r: PingMetrics)
    ensures
        r.packet_loss_percent == packet_loss(raw@),
        r.latency_ms == average_latency(raw@),
        r.reachable == reachable(packet_loss(raw@), command_succeeded),
{
    let packet_loss_percent = parse_packet_loss(raw);
    let reachable = match packet_loss_percent {
        Some(loss) => loss < 100,
        None => command_succeeded,
    };
    PingMetrics { reachable, latency_ms: parse_average_latency(raw), packet_loss_percent }
}

/// The text a ping run is read from: its standard output, a line break, and
/// its standard error.
pub fn ping_output(stdout: &str, stderr: &str) -> (r: String)
    ensures
        r@ == stdout@ + seq!['\n'] + stderr@,
{
    let mut out = chars_of(stdout);
    out.push('\n');
    crate::text::append_chars(&mut out, &chars_of(stderr));
    string_from_chars(out)
}

/// The text of a ping run from its raw output bytes, each stream read as
/// UTF-8.
pub fn read_ping_output(stdout: &[u8], stderr: &[u8]) -> (r: String)
    ensures
        r@ == utf8_lossy(stdout@) + seq!['\n'] + utf8_lossy(stderr@),
{
    let out = decode(stdout);
    let err = decode(stderr);
    ping_output(out.as_str(), err.as_str())
}

// ---------------------------------------------------------------------------
// Default gateway
// ---------------------------------------------------------------------------

/// The gateway a line of `route -n get default` names: the trimmed line
/// starting with `gateway:`, and a nonempty value after it.
pub open spec fn gateway_line(l: Seq<char>) -> Option<Seq<char>> {
    match strip_prefix(trim(l), "gateway:"@) {
        Some(rest) => if trim(rest).len() > 0 {
            Some(trim(rest))
        } else {
            None
        },
        None => None,
    }
}

pub open spec fn first_gateway(ls: Seq<Seq<char>>) -> Option<Seq<char>>
    decreases ls.len(),
{
    if ls.len() == 0 {
        None
    } else {
        match gateway_line(ls[0]) {
            Some(g) => Some(g),
            None => first_gateway(ls.drop_first()),
        }
    }
}

/// The default gateway that macOS `route -n get default` reports.
pub fn parse_macos_default_gateway(raw: &str) -> (r: Option<String>)
    ensures
        match r {
            Some(g) => first_gateway(lines(raw@)) == Some(g@),
            None => first_gateway(lines(raw@)) is None,
        },
{
    let ls = text_lines(raw);
    let n = ls.len();
    let mut i: usize = 0;
    assert(views(ls@).subrange(0, n as int) =~= views(ls@));
    while i < n
        invariant
            i <= n == ls.len(),
            views(ls@) == lines(raw@),
            first_gateway(lines(raw@)) == first_gateway(views(ls@).subrange(i as int, n as int)),
        decreases n - i,
    {
        let ghost rest = views(ls@).subrange(i as int, n as int);
        assert(rest.drop_first() =~= views(ls@).subrange(i + 1, n as int));
        assert(rest[0] == ls@[i as int]@);
        let line = trim_chars(&ls[i]);
        match after_prefix(&line, "gateway:") {
            Some(rest_of_line) => {
                let value = trim_chars(&rest_of_line);
                if value.len() > 0 {
                    return Some(string_from_chars(value));
                }
            },
            None => {},
        }
        i += 1;
    }
    None
}

/// The trimmed lines of a text, in order: the candidates for the gateway
/// address in what the Windows route query prints.
pub fn gateway_candidates(raw: &str) -> (r: Vec<String>)
    ensures
        r@.len() == lines(raw@).len(),
        forall|i: int| 0 <= i < r@.len() ==> #[trigger] r@[i]@ == trim(lines(raw@)[i]),
{
    let ls = text_lines(raw);
    let mut out: Vec<String> = Vec::new();
    for i in 0..ls.len()
        invariant
            views(ls@) == lines(raw@),
            out@.len() == i,
            forall|j: int| 0 <= j < i ==> #[trigger] out@[j]@ == trim(lines(raw@)[j]),
    {
        assert(views(ls@)[i as int] == ls@[i as int]@);
        out.push(string_from_chars(trim_chars(&ls[i])));
    }
    out
}

// ---------------------------------------------------------------------------
// Laws
// ---------------------------------------------------------------------------

proof fn lemma_percent_at_most_100(t: Seq<char>)
    ensures
        percent_value(t) matches Some(v) ==> v <= 100,
{
    match plain_decimal(t) {
        Some((w, f)) => {
            if digits_value(w) < 100 || (digits_value(w) == 100 && digits_value(f) == 0) {
                lemma_rounded_split(w, f);
                lemma_zero_digits(f);
                if digits_value(w) == 100 && f.len() > 0 {
                    assert(f[0] == '0');
                }
            }
        },
        None => {},
    }
}

proof fn lemma_loss_from_at_most_100(raw: Seq<char>, i: int)
    ensures
        packet_loss_from(raw, i) matches Some(v) ==> v <= 100,
    decreases raw.len() - i,
{
    if 0 <= i < raw.len() {
        lemma_percent_at_most_100(commas_to_points(number_tail(trim_end(raw.subrange(0, i)))));
        lemma_loss_from_at_most_100(raw, i + 1);
    }
}

/// The packet loss read from any ping output is a percentage: at most 100.
pub proof fn law_packet_loss_is_a_percentage(raw: Seq<char>)
    ensures
        packet_loss(raw) matches Some(v) ==> v <= 100,
{
    lemma_loss_from_at_most_100(raw, 0);
}

/// When a ping output reports its packet loss, the loss alone decides
/// reachability: all packets lost is unreachable even when the command
/// succeeded, and any smaller loss is reachable even when it failed.
pub proof fn law_reported_loss_decides_reachability(raw: Seq<char>, command_succeeded: bool)
    ensures
        packet_loss(raw) == Some(100u8) ==> !reachable(packet_loss(raw), command_succeeded),
        packet_loss(raw) matches Some(v) && v < 100 ==> reachable(
            packet_loss(raw),
            command_succeeded,
        ),
        packet_loss(raw) is Some ==> reachable(packet_loss(raw), true) == reachable(
            packet_loss(raw),
            false,
        ),
{
}

} // verus!
