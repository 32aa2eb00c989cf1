//! Connection diagnostics: the four checks (WiFi, gateway, DNS, internet)
//! built from what the probes observed, and the overall verdict.
use vstd::prelude::*;
use crate::text::{append_chars, chars_of, decimal, owned, push_decimal, string_from_chars};
use crate::wifi::{opt_view, ConnectionIdentity};

verus! {

// ---------------------------------------------------------------------------
// Types
// ---------------------------------------------------------------------------

#[derive(Debug, Clone, Copy, PartialEq, Eq, Structural)]
pub enum DiagnosticOverall {
    Healthy,
    Degraded,
    Offline,
}

#[derive(Debug, Clone, Copy, PartialEq, Eq, Structural)]
pub enum DiagnosticStatus {
    Pass,
    Warning,
    Fail,
}

#[derive(Debug, Clone, Copy, PartialEq, Eq, Structural)]
pub enum DiagnosticCheckId {
    Wifi,
    Gateway,
    Dns,
    Internet,
}

#[derive(Debug, Clone)]
pub struct DiagnosticCheck {
    pub id: DiagnosticCheckId,
    pub status: DiagnosticStatus,
    pub title: String,
    pub detail: String,
    pub latency_ms: Option<u32>,
    pub packet_loss_percent: Option<u8>,
}

pub struct CheckModel {
    pub id: DiagnosticCheckId,
    pub status: DiagnosticStatus,
    pub title: Seq<char>,
    pub detail: Seq<char>,
    pub latency_ms: Option<u32>,
    pub packet_loss_percent: Option<u8>,
}

impl View for DiagnosticCheck {
    type V = CheckModel;

    open spec fn view(&self) -> CheckModel {
        CheckModel {
            id: self.id,
            status: self.status,
            title: self.title@,
            detail: self.detail@,
            latency_ms: self.latency_ms,
            packet_loss_percent: self.packet_loss_percent,
        }
    }
}

#[derive(Debug, Clone)]
pub struct ConnectionDiagnosticReport {
    pub checked_at: String,
    pub overall: DiagnosticOverall,
    pub summary: String,
    pub checks: Vec<DiagnosticCheck>,
    pub connection: Option<ConnectionIdentity>,
}

/// What a `ping` run showed.
#[derive(Debug, Clone, Copy)]
pub struct PingMetrics {
    pub reachable: bool,
    pub latency_ms: Option<u32>,
    pub packet_loss_percent: Option<u8>,
}

pub open spec fn check(
    id: DiagnosticCheckId,
    status: DiagnosticStatus,
    title: Seq<char>,
    detail: Seq<char>,
    latency_ms: Option<u32>,
    packet_loss_percent: Option<u8>,
) -> CheckModel {
    CheckModel { id, status, title, detail, latency_ms, packet_loss_percent }
}

fn make_check(
    id: DiagnosticCheckId,
    status: DiagnosticStatus,
    title: String,
    detail: String,
    latency_ms: Option<u32>,
    packet_loss_percent: Option<u8>,
) -> (r: DiagnosticCheck)
    ensures
        r@ == check(id, status, title@, detail@, latency_ms, packet_loss_percent),
{
    DiagnosticCheck { id, status, title, detail, latency_ms, packet_loss_percent }
}

// ---------------------------------------------------------------------------
// The checks
// ---------------------------------------------------------------------------

pub open spec fn probe_failure(id: DiagnosticCheckId, title: Seq<char>) -> CheckModel {
    check(
        id,
        DiagnosticStatus::Fail,
        title,
        "请重新运行诊断；如果问题持续出现，请重启 Poliwave。"@,
        None,
        None,
    )
}

/// A check whose probe ended abnormally.
pub fn internal_probe_failure(id: DiagnosticCheckId, title: &str) -> (r: DiagnosticCheck)
    ensures
        r@ == probe_failure(id, title@),
{
    make_check(
        id,
        DiagnosticStatus::Fail,
        owned(title),
        owned("请重新运行诊断；如果问题持续出现，请重启 Poliwave。"),
        None,
        None,
    )
}

/// The WiFi check: passes with the SSID of the current connection, fails
/// without one.
pub open spec fn wifi_result(ssid: Option<Seq<char>>) -> CheckModel {
    match ssid {
        Some(s) => check(
            DiagnosticCheckId::Wifi,
            DiagnosticStatus::Pass,
            "WiFi 已连接"@,
            "当前连接："@ + s,
            None,
            None,
        ),
        None => check(
            DiagnosticCheckId::Wifi,
            DiagnosticStatus::Fail,
            "未检测到 WiFi 连接"@,
            "请先连接 WiFi；如果设备正在使用有线网络，其他检查仍会继续。"@,
            None,
            None,
        ),
    }
}

pub fn wifi_check(ssid: Option<&str>) -> (r: DiagnosticCheck)
    ensures
        r@ == wifi_result(
            match ssid {
                Some(s) => Some(s@),
                None => None,
            },
        ),
{
    match ssid {
        Some(s) => {
            let mut detail = chars_of("当前连接：");
            append_chars(&mut detail, &chars_of(s));
            make_check(
                DiagnosticCheckId::Wifi,
                DiagnosticStatus::Pass,
                owned("WiFi 已连接"),
                string_from_chars(detail),
                None,
                None,
            )
        },
        None => make_check(
            DiagnosticCheckId::Wifi,
            DiagnosticStatus::Fail,
            owned("未检测到 WiFi 连接"),
            owned("请先连接 WiFi；如果设备正在使用有线网络，其他检查仍会继续。"),
            None,
            None,
        ),
    }
}

/// How a probe of `target` reads: average latency and loss when known.
pub open spec fn probe_detail(target: Seq<char>, latency: Option<u32>, loss: Option<u8>) -> Seq<char> {
    match (latency, loss) {
        (Some(l), Some(p)) => target + "：平均延迟 "@ + decimal(l as nat) + " ms，丢包 "@ + decimal(
            p as nat,
        ) + "%。"@,
        (Some(l), None) => target + "：平均延迟 "@ + decimal(l as nat) + " ms。"@,
        (None, Some(p)) => target + "：丢包 "@ + decimal(p as nat) + "%。"@,
        (None, None) => target + " 可达。"@,
    }
}

pub fn format_probe_detail(target: &str, metrics: PingMetrics) -> (r: String)
    ensures
        r@ == probe_detail(target@, metrics.latency_ms, metrics.packet_loss_percent),
{
    let mut out = chars_of(target);
    match (metrics.latency_ms, metrics.packet_loss_percent) {
        (Some(latency), Some(loss)) => {
            append_chars(&mut out, &chars_of("：平均延迟 "));
            push_decimal(&mut out, latency as u64);
            append_chars(&mut out, &chars_of(" ms，丢包 "));
            push_decimal(&mut out, loss as u64);
            append_chars(&mut out, &chars_of("%。"));
        },
        (Some(latency), None) => {
            append_chars(&mut out, &chars_of("：平均延迟 "));
            push_decimal(&mut out, latency as u64);
            append_chars(&mut out, &chars_of(" ms。"));
        },
        (None, Some(loss)) => {
            append_chars(&mut out, &chars_of("：丢包 "));
            push_decimal(&mut out, loss as u64);
            append_chars(&mut out, &chars_of("%。"));
        },
        (None, None) => {
            append_chars(&mut out, &chars_of(" 可达。"));
        },
    }
    string_from_chars(out)
}

pub open spec fn ping_view(p: Result<PingMetrics, String>) -> Result<PingMetrics, Seq<char>> {
    match p {
        Ok(m) => Ok(m),
        Err(e) => Err(e@),
    }
}

pub open spec fn loss_of(m: PingMetrics) -> u8 {
    match m.packet_loss_percent {
        Some(l) => l,
        None => 0,
    }
}

/// The gateway check. Without a default gateway it warns that none was found;
/// with one, a reachable gateway passes when no packet was lost and warns
/// otherwise, an unresponsive one and a ping that could not run warn.
pub open spec fn gateway_result(gateway: Option<Seq<char>>, ping: Result<PingMetrics, Seq<char>>) -> CheckModel {
    match gateway {
        None => check(
            DiagnosticCheckId::Gateway,
            DiagnosticStatus::Warning,
            "未识别默认网关"@,
            "VPN 或特殊路由配置可能隐藏网关；请结合 DNS 和互联网检查判断。"@,
            None,
            None,
        ),
        Some(g) => match ping {
            Ok(m) => if m.reachable {
                check(
                    DiagnosticCheckId::Gateway,
                    if loss_of(m) == 0 {
                        DiagnosticStatus::Pass
                    } else {
                        DiagnosticStatus::Warning
                    },
                    if loss_of(m) == 0 {
                        "本地网关可达"@
                    } else {
                        "本地网关存在丢包"@
                    },
                    probe_detail(g, m.latency_ms, m.packet_loss_percent),
                    m.latency_ms,
                    m.packet_loss_percent,
                )
            } else {
                check(
                    DiagnosticCheckId::Gateway,
                    DiagnosticStatus::Warning,
                    "网关未响应 Ping"@,
                    "已找到网关 "@ + g
                        + "，但没有收到 ICMP 响应；部分路由器会禁用 Ping，请结合互联网检查判断。"@,
                    m.latency_ms,
                    m.packet_loss_percent,
                )
            },
            Err(e) => check(
                DiagnosticCheckId::Gateway,
                DiagnosticStatus::Warning,
                "无法检测本地网关"@,
                "网关 "@ + g + " 的 Ping 检查未能执行："@ + e,
                None,
                None,
            ),
        },
    }
}

/// `ping` is consulted only when there is a gateway.
pub fn gateway_check(gateway: Option<&str>, ping: Result<PingMetrics, String>) -> (r:
    DiagnosticCheck)
    ensures
        r@ == gateway_result(
            match gateway {
                Some(g) => Some(g@),
                None => None,
            },
            ping_view(ping),
        ),
{
    let gateway = match gateway {
        Some(g) => g,
        None => {
            return make_check(
                DiagnosticCheckId::Gateway,
                DiagnosticStatus::Warning,
                owned("未识别默认网关"),
                owned("VPN 或特殊路由配置可能隐藏网关；请结合 DNS 和互联网检查判断。"),
                None,
                None,
            );
        },
    };
    match ping {
        Ok(metrics) => {
            if metrics.reachable {
                let loss: u8 = match metrics.packet_loss_percent {
                    Some(l) => l,
                    None => 0,
                };
                let status = if loss == 0 {
                    DiagnosticStatus::Pass
                } else {
                    DiagnosticStatus::Warning
                };
                let title = if loss == 0 {
                    "本地网关可达"
                } else {
                    "本地网关存在丢包"
                };
                make_check(
                    DiagnosticCheckId::Gateway,
                    status,
                    owned(title),
                    format_probe_detail(gateway, metrics),
                    metrics.latency_ms,
                    metrics.packet_loss_percent,
                )
            } else {
                let mut detail = chars_of("已找到网关 ");
                append_chars(&mut detail, &chars_of(gateway));
                append_chars(
                    &mut detail,
                    &chars_of("，但没有收到 ICMP 响应；部分路由器会禁用 Ping，请结合互联网检查判断。"),
                );
                make_check(
                    DiagnosticCheckId::Gateway,
                    DiagnosticStatus::Warning,
                    owned("网关未响应 Ping"),
                    string_from_chars(detail),
                    metrics.latency_ms,
                    metrics.packet_loss_percent,
                )
            }
        },
        Err(error) => {
            let mut detail = chars_of("网关 ");
            append_chars(&mut detail, &chars_of(gateway));
            append_chars(&mut detail, &chars_of(" 的 Ping 检查未能执行："));
            append_chars(&mut detail, &chars_of(error.as_str()));
            make_check(
                DiagnosticCheckId::Gateway,
                DiagnosticStatus::Warning,
                owned("无法检测本地网关"),
                string_from_chars(detail),
                None,
                None,
            )
        },
    }
}

/// The DNS check from the number of addresses `example.com` resolved to (or
/// the resolver's error) and the time the lookup took.
pub open spec fn dns_result(resolved: Result<usize, Seq<char>>, latency_ms: u32) -> CheckModel {
    match resolved {
        Ok(n) => if n > 0 {
            check(
                DiagnosticCheckId::Dns,
                DiagnosticStatus::Pass,
                "DNS 解析正常"@,
                "example.com 解析成功，耗时 "@ + decimal(latency_ms as nat) + " ms。"@,
                Some(latency_ms),
                None,
            )
        } else {
            check(
                DiagnosticCheckId::Dns,
                DiagnosticStatus::Fail,
                "DNS 未返回地址"@,
                "请检查系统 DNS、路由器 DNS 或 VPN 配置。"@,
                None,
                None,
            )
        },
        Err(e) => check(
            DiagnosticCheckId::Dns,
            DiagnosticStatus::Fail,
            "DNS 解析失败"@,
            e + " 请检查系统 DNS、路由器 DNS 或 VPN 配置。"@,
            None,
            None,
        ),
    }
}

pub open spec fn count_view(r: Result<usize, String>) -> Result<usize, Seq<char>> {
    match r {
        Ok(n) => Ok(n),
        Err(e) => Err(e@),
    }
}

pub fn dns_check(resolved: Result<usize, String>, latency_ms: u32) -> (r: DiagnosticCheck)
    ensures
        r@ == dns_result(count_view(resolved), latency_ms),
{
    match resolved {
        Ok(n) => {
            if n > 0 {
                let mut detail = chars_of("example.com 解析成功，耗时 ");
                push_decimal(&mut detail, latency_ms as u64);
                append_chars(&mut detail, &chars_of(" ms。"));
                make_check(
                    DiagnosticCheckId::Dns,
                    DiagnosticStatus::Pass,
                    owned("DNS 解析正常"),
                    string_from_chars(detail),
                    Some(latency_ms),
                    None,
                )
            } else {
                make_check(
                    DiagnosticCheckId::Dns,
                    DiagnosticStatus::Fail,
                    owned("DNS 未返回地址"),
                    owned("请检查系统 DNS、路由器 DNS 或 VPN 配置。"),
                    None,
                    None,
                )
            }
        },
        Err(error) => {
            let mut detail = chars_of(error.as_str());
            append_chars(&mut detail, &chars_of(" 请检查系统 DNS、路由器 DNS 或 VPN 配置。"));
            make_check(
                DiagnosticCheckId::Dns,
                DiagnosticStatus::Fail,
                owned("DNS 解析失败"),
                string_from_chars(detail),
                None,
                None,
            )
        },
    }
}

/// The internet check. A reachable ping of the public endpoint decides it
/// (passing without loss, warning with loss); otherwise the TCP probe does
/// (`None` while it has not been run): a connection passes with its time, a
/// failure fails.
pub open spec fn internet_result(
    ping: Result<PingMetrics, Seq<char>>,
    tcp: Option<Result<u32, Seq<char>>>,
) -> Option<CheckModel> {
    if ping is Ok && ping->Ok_0.reachable {
        let m = ping->Ok_0;
        Some(
            check(
                DiagnosticCheckId::Internet,
                if loss_of(m) == 0 {
                    DiagnosticStatus::Pass
                } else {
                    DiagnosticStatus::Warning
                },
                if loss_of(m) == 0 {
                    "互联网可达"@
                } else {
                    "互联网可达，但存在丢包"@
                },
                probe_detail("公共网络检测端点"@, m.latency_ms, m.packet_loss_percent),
                m.latency_ms,
                m.packet_loss_percent,
            ),
        )
    } else {
        match tcp {
            None => None,
            Some(Ok(latency)) => Some(
                check(
                    DiagnosticCheckId::Internet,
                    DiagnosticStatus::Pass,
                    "互联网可达"@,
                    "外部 TCP 连接成功；检测端点未响应 Ping，因此本次无法计算互联网丢包率。"@,
                    Some(latency),
                    None,
                ),
            ),
            Some(Err(e)) => Some(
                check(
                    DiagnosticCheckId::Internet,
                    DiagnosticStatus::Fail,
                    "互联网连接异常"@,
                    e + " 请检查路由器上网状态、防火墙、代理或 VPN。"@,
                    None,
                    None,
                ),
            ),
        }
    }
}

pub open spec fn opt_check(c: Option<DiagnosticCheck>) -> Option<CheckModel> {
    match c {
        Some(c) => Some(c@),
        None => None,
    }
}

pub fn internet_check(ping: &Result<PingMetrics, String>, tcp: Option<Result<u32, String>>) -> (r:
    Option<DiagnosticCheck>)
    ensures
        opt_check(r) == internet_result(
            ping_view(*ping),
            match tcp {
                Some(Ok(l)) => Some(Ok(l)),
                Some(Err(e)) => Some(Err(e@)),
                None => None,
            },
        ),
{
    match ping {
        Ok(metrics) => {
            if metrics.reachable {
                let loss: u8 = match metrics.packet_loss_percent {
                    Some(l) => l,
                    None => 0,
                };
                return Some(
                    make_check(
                        DiagnosticCheckId::Internet,
                        if loss == 0 {
                            DiagnosticStatus::Pass
                        } else {
                            DiagnosticStatus::Warning
                        },
                        if loss == 0 {
                            owned("互联网可达")
                        } else {
                            owned("互联网可达，但存在丢包")
                        },
                        format_probe_detail("公共网络检测端点", *metrics),
                        metrics.latency_ms,
                        metrics.packet_loss_percent,
                    ),
                );
            }
        },
        Err(_) => {},
    }
    match tcp {
        None => None,
        Some(Ok(latency_ms)) => Some(
            make_check(
                DiagnosticCheckId::Internet,
                DiagnosticStatus::Pass,
                owned("互联网可达"),
                owned("外部 TCP 连接成功；检测端点未响应 Ping，因此本次无法计算互联网丢包率。"),
                Some(latency_ms),
                None,
            ),
        ),
        Some(Err(error)) => {
            let mut detail = chars_of(error.as_str());
            append_chars(&mut detail, &chars_of(" 请检查路由器上网状态、防火墙、代理或 VPN。"));
            Some(
                make_check(
                    DiagnosticCheckId::Internet,
                    DiagnosticStatus::Fail,
                    owned("互联网连接异常"),
                    string_from_chars(detail),
                    None,
                    None,
                ),
            )
        },
    }
}

// ---------------------------------------------------------------------------
// The verdict
// ---------------------------------------------------------------------------

/// The overall verdict and its summary from the four checks, first rule that
/// applies: WiFi, DNS and internet passing is healthy; reachable internet
/// (not failed) is degraded, with the reason: WiFi not confirmed, DNS not
/// passing, or else loss; a passing gateway alone is degraded; anything else
/// is offline.
pub open spec fn verdict(
    wifi: DiagnosticStatus,
    gateway: DiagnosticStatus,
    dns: DiagnosticStatus,
    internet: DiagnosticStatus,
) -> (DiagnosticOverall, Seq<char>) {
    let wifi_ok = wifi == DiagnosticStatus::Pass;
    let gateway_ok = gateway == DiagnosticStatus::Pass;
    let dns_ok = dns == DiagnosticStatus::Pass;
    let internet_ok = internet == DiagnosticStatus::Pass;
    let internet_reachable = internet != DiagnosticStatus::Fail;
    if wifi_ok && dns_ok && internet_ok {
        (DiagnosticOverall::Healthy, "WiFi、DNS 与互联网连接均正常。"@)
    } else if internet_reachable && dns_ok && !wifi_ok {
        (DiagnosticOverall::Degraded, "设备可以联网，但未确认当前 WiFi 连接，可能正在使用有线网络。"@)
    } else if internet_reachable && !dns_ok {
        (DiagnosticOverall::Degraded, "外部网络可达，但 DNS 解析异常。"@)
    } else if internet_reachable {
        (DiagnosticOverall::Degraded, "互联网可达，但检测到丢包，连接质量下降。"@)
    } else if gateway_ok {
        (DiagnosticOverall::Degraded, "本地网络可达，但互联网连接异常。"@)
    } else {
        (DiagnosticOverall::Offline, "未确认可用的网络连接，请从 WiFi、网关到互联网逐项排查。"@)
    }
}

pub fn summarize(
    wifi: &DiagnosticCheck,
    gateway: &DiagnosticCheck,
    dns: &DiagnosticCheck,
    internet: &DiagnosticCheck,
) -> (r: (DiagnosticOverall, String))
    ensures
        (r.0, r.1@) == verdict(wifi.status, gateway.status, dns.status, internet.status),
{
    let wifi_ok = wifi.status == DiagnosticStatus::Pass;
    let gateway_ok = gateway.status == DiagnosticStatus::Pass;
    let dns_ok = dns.status == DiagnosticStatus::Pass;
    let internet_ok = internet.status == DiagnosticStatus::Pass;
    let internet_reachable = internet.status != DiagnosticStatus::Fail;
    if wifi_ok && dns_ok && internet_ok {
        return (DiagnosticOverall::Healthy, owned("WiFi、DNS 与互联网连接均正常。"));
    }
    if internet_reachable && dns_ok && !wifi_ok {
        return (
            DiagnosticOverall::Degraded,
            owned("设备可以联网，但未确认当前 WiFi 连接，可能正在使用有线网络。"),
        );
    }
    if internet_reachable && !dns_ok {
        return (DiagnosticOverall::Degraded, owned("外部网络可达，但 DNS 解析异常。"));
    }
    if internet_reachable {
        return (DiagnosticOverall::Degraded, owned("互联网可达，但检测到丢包，连接质量下降。"));
    }
    if gateway_ok {
        return (DiagnosticOverall::Degraded, owned("本地网络可达，但互联网连接异常。"));
    }
    (DiagnosticOverall::Offline, owned("未确认可用的网络连接，请从 WiFi、网关到互联网逐项排查。"))
}

/// The report of one diagnostic run: the WiFi check from the connection's
/// SSID, the verdict of the four checks, and the checks in the order WiFi,
/// gateway, DNS, internet.
pub fn build_report(
    checked_at: String,
    connection: Option<ConnectionIdentity>,
    gateway: DiagnosticCheck,
    dns: DiagnosticCheck,
    internet: DiagnosticCheck,
) -> (r: ConnectionDiagnosticReport)
    ensures
        r.checked_at@ == checked_at@,
        r.checks@.len() == 4,
        r.checks@[0]@ == wifi_result(
            match connection {
                Some(c) => Some(c.ssid@),
                None => None,
            },
        ),
        r.checks@[1]@ == gateway@,
        r.checks@[2]@ == dns@,
        r.checks@[3]@ == internet@,
        (r.overall, r.summary@) == verdict(
            r.checks@[0].status,
            gateway.status,
            dns.status,
            internet.status,
        ),
        r.connection is Some <==> connection is Some,
        r.connection matches Some(c) ==> c.ssid@ == connection->0.ssid@ && opt_view(c.bssid)
            == opt_view(connection->0.bssid),
{
    let wifi = match &connection {
        Some(c) => wifi_check(Some(c.ssid.as_str())),
        None => wifi_check(None),
    };
    let (overall, summary) = summarize(&wifi, &gateway, &dns, &internet);
    let mut checks: Vec<DiagnosticCheck> = Vec::new();
    checks.push(wifi);
    checks.push(gateway);
    checks.push(dns);
    checks.push(internet);
    ConnectionDiagnosticReport { checked_at, overall, summary, checks, connection }
}

/// Milliseconds held to `u32`.
pub fn elapsed_ms(elapsed_millis: u128) -> (r: u32)
    ensures
        r == (if elapsed_millis > 4294967295 {
            4294967295
        } else {
            elapsed_millis
        }),
{
    if elapsed_millis > 4294967295 {
        4294967295
    } else {
        elapsed_millis as u32
    }
}

// ---------------------------------------------------------------------------
// Laws of the verdict
// ---------------------------------------------------------------------------

/// The connection is healthy exactly when the WiFi, DNS and internet checks
/// all pass; the gateway check plays no part in it.
pub proof fn law_healthy_exactly_when_wifi_dns_and_internet_pass(
    wifi: DiagnosticStatus,
    gateway: DiagnosticStatus,
    dns: DiagnosticStatus,
    internet: DiagnosticStatus,
)
    ensures
        (verdict(wifi, gateway, dns, internet).0 == DiagnosticOverall::Healthy) <==> (wifi
            == DiagnosticStatus::Pass && dns == DiagnosticStatus::Pass && internet
            == DiagnosticStatus::Pass),
{
}

/// While the internet check has not failed, the verdict does not depend on
/// the gateway check, and the connection is never offline.
pub proof fn law_reachable_internet_ignores_the_gateway(
    wifi: DiagnosticStatus,
    gateway: DiagnosticStatus,
    other_gateway: DiagnosticStatus,
    dns: DiagnosticStatus,
    internet: DiagnosticStatus,
)
    requires
        internet != DiagnosticStatus::Fail,
    ensures
        verdict(wifi, gateway, dns, internet) == verdict(wifi, other_gateway, dns, internet),
        verdict(wifi, gateway, dns, internet).0 != DiagnosticOverall::Offline,
{
}

/// Reachable internet with packet loss, WiFi and DNS passing, is degraded
/// with the loss named as the reason, whatever the gateway check says.
pub proof fn law_internet_loss_is_degraded(gateway: DiagnosticStatus)
    ensures
        verdict(
            DiagnosticStatus::Pass,
            gateway,
            DiagnosticStatus::Pass,
            DiagnosticStatus::Warning,
        ) == (DiagnosticOverall::Degraded, "互联网可达，但检测到丢包，连接质量下降。"@),
{
}

/// Reachable internet with DNS not passing is degraded, with DNS named as
/// the reason.
pub proof fn law_dns_failure_with_reachable_internet_is_degraded(
    wifi: DiagnosticStatus,
    gateway: DiagnosticStatus,
    dns: DiagnosticStatus,
    internet: DiagnosticStatus,
)
    requires
        internet != DiagnosticStatus::Fail,
        dns != DiagnosticStatus::Pass,
    ensures
        verdict(wifi, gateway, dns, internet).0 == DiagnosticOverall::Degraded,
        verdict(wifi, gateway, dns, internet).1 == "外部网络可达，但 DNS 解析异常。"@,
{
}

/// The connection is offline exactly when the internet check failed and the
/// gateway check did not pass.
pub proof fn law_offline_exactly_when_neither_internet_nor_gateway(
    wifi: DiagnosticStatus,
    gateway: DiagnosticStatus,
    dns: DiagnosticStatus,
    internet: DiagnosticStatus,
)
    ensures
        (verdict(wifi, gateway, dns, internet).0 == DiagnosticOverall::Offline) <==> (internet
            == DiagnosticStatus::Fail && gateway != DiagnosticStatus::Pass),
{
}

} // verus!
