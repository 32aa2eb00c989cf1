use poliwave::command_text::decode;
use poliwave::diagnostics::{
    build_report, dns_check, elapsed_ms, format_probe_detail, gateway_check,
    internal_probe_failure, internet_check, summarize, wifi_check, DiagnosticCheck,
    DiagnosticCheckId, DiagnosticOverall, DiagnosticStatus, PingMetrics,
};
use poliwave::ping::{
    gateway_candidates, parse_average_latency, parse_macos_default_gateway, parse_packet_loss,
    parse_ping_metrics, ping_output, read_ping_output,
};
use poliwave::wifi::ConnectionIdentity;

fn check(id: DiagnosticCheckId, status: DiagnosticStatus) -> DiagnosticCheck {
    DiagnosticCheck {
        id,
        status,
        title: String::new(),
        detail: String::new(),
        latency_ms: None,
        packet_loss_percent: None,
    }
}

fn metrics(reachable: bool, latency_ms: Option<u32>, loss: Option<u8>) -> PingMetrics {
    PingMetrics { reachable, latency_ms, packet_loss_percent: loss }
}

#[test]
fn parses_macos_ping_metrics() {
    let raw = "3 packets transmitted, 3 packets received, 0.0% packet loss\nround-trip min/avg/max/stddev = 1.123/2.456/4.100/0.800 ms\n";
    assert_eq!(parse_packet_loss(raw), Some(0));
    assert_eq!(parse_average_latency(raw), Some(2));
}

#[test]
fn preserves_decimal_packet_loss_including_total_loss() {
    for (raw, expected) in [
        (
            "3 packets transmitted, 0 packets received, 100.0% packet loss",
            100,
        ),
        (
            "3 packets transmitted, 2 packets received, 33.3% packet loss",
            33,
        ),
        (
            "3 packets transmitted, 1 packets received, 66.7% packet loss",
            67,
        ),
        (
            "3 packets transmitted, 3 packets received, 0.0% packet loss",
            0,
        ),
    ] {
        assert_eq!(parse_packet_loss(raw), Some(expected), "{raw}");
    }
}

#[test]
fn total_loss_is_unreachable_and_partial_replies_remain_reachable() {
    for exit_success in [false, true] {
        assert!(!parse_ping_metrics("100.0% packet loss", exit_success).reachable);
    }
    let partial = parse_ping_metrics("33.3% packet loss", false);
    assert!(partial.reachable);
    assert_eq!(partial.packet_loss_percent, Some(33));
}

#[test]
fn reachable_internet_with_loss_is_degraded_even_without_gateway_ping() {
    let wifi = check(DiagnosticCheckId::Wifi, DiagnosticStatus::Pass);
    let dns = check(DiagnosticCheckId::Dns, DiagnosticStatus::Pass);
    let internet = check(DiagnosticCheckId::Internet, DiagnosticStatus::Warning);
    for status in [
        DiagnosticStatus::Pass,
        DiagnosticStatus::Warning,
        DiagnosticStatus::Fail,
    ] {
        let gateway = check(DiagnosticCheckId::Gateway, status);
        let (overall, summary) = summarize(&wifi, &gateway, &dns, &internet);
        assert_eq!(overall, DiagnosticOverall::Degraded);
        assert!(summary.contains("丢包"));
    }
}

#[test]
fn parses_localized_windows_ping_metrics() {
    let raw = "数据包: 已发送 = 3，已接收 = 2，丢失 = 1 (33% 丢失)，\n往返行程的估计时间(以毫秒为单位):\n    最短 = 2ms，最长 = 8ms，平均 = 5ms\n";
    assert_eq!(parse_packet_loss(raw), Some(33));
    assert_eq!(parse_average_latency(raw), Some(5));
}

#[test]
fn summarizes_healthy_and_dns_failure_paths() {
    let wifi = check(DiagnosticCheckId::Wifi, DiagnosticStatus::Pass);
    let gateway = check(DiagnosticCheckId::Gateway, DiagnosticStatus::Warning);
    let dns = check(DiagnosticCheckId::Dns, DiagnosticStatus::Pass);
    let internet = check(DiagnosticCheckId::Internet, DiagnosticStatus::Pass);

    assert_eq!(
        summarize(&wifi, &gateway, &dns, &internet).0,
        DiagnosticOverall::Healthy
    );

    let dns_failed = check(DiagnosticCheckId::Dns, DiagnosticStatus::Fail);
    assert_eq!(
        summarize(&wifi, &gateway, &dns_failed, &internet).0,
        DiagnosticOverall::Degraded
    );
}

#[test]
fn parses_default_gateways() {
    let macos = "   route to: default\ndestination: default\n    gateway: 192.168.1.1\n";
    assert_eq!(
        parse_macos_default_gateway(macos).as_deref(),
        Some("192.168.1.1")
    );

    // The address filter over these candidates needs `std::net` and runs
    // beside the library; here the candidate lines it reads are checked.
    let windows = "\r\n192.168.50.1\r\n";
    let candidates = gateway_candidates(windows);
    assert_eq!(
        candidates.iter().find(|line| !line.is_empty()).map(String::as_str),
        Some("192.168.50.1")
    );
}

// ---------------------------------------------------------------------------
// Further cases
// ---------------------------------------------------------------------------

#[test]
fn parses_macos_default_gateway_from_route_output() {
    let macos = "   route to: default\ndestination: default\n    gateway: 192.168.1.1\n";
    assert_eq!(
        parse_macos_default_gateway(macos).as_deref(),
        Some("192.168.1.1")
    );
    assert_eq!(parse_macos_default_gateway("gateway:   \nroute to: default\n"), None);
    assert_eq!(parse_macos_default_gateway(""), None);
}

#[test]
fn lists_trimmed_lines_as_windows_gateway_candidates() {
    let windows = "\r\n192.168.50.1\r\n";
    assert_eq!(
        gateway_candidates(windows),
        vec![String::new(), "192.168.50.1".to_string()]
    );
}

#[test]
fn reads_packet_loss_with_decimal_comma_and_skips_out_of_range_numbers() {
    assert_eq!(parse_packet_loss("12,5% Verlust"), Some(13));
    assert_eq!(parse_packet_loss("150% then 20 % loss"), Some(20));
    assert_eq!(parse_packet_loss("100.5% and nothing else"), None);
    assert_eq!(parse_packet_loss("no percentage here"), None);
    assert_eq!(parse_packet_loss("% alone"), None);
    assert_eq!(parse_packet_loss("1.2.3% then 4%"), Some(4));
    assert_eq!(parse_packet_loss("99.5% loss"), Some(100));
    assert_eq!(parse_packet_loss("100.00% loss"), Some(100));
}

#[test]
fn reads_average_latency_from_the_lines_that_name_it() {
    assert_eq!(
        parse_average_latency("rtt min/avg/max/mdev = 1.5/2.5/3.5/0.1 ms\n"),
        Some(3)
    );
    assert_eq!(
        parse_average_latency("Minimum = 1ms, Maximum = 3ms, Average = 2ms\n"),
        Some(2)
    );
    assert_eq!(
        parse_average_latency("min/avg/max without values\nAverage = 5ms\n"),
        None
    );
    assert_eq!(
        parse_average_latency("round-trip min/avg/max = 7\nAverage = 5ms\n"),
        None
    );
    assert_eq!(
        parse_average_latency("Average = n/a\n平均 = 7ms\n"),
        Some(7)
    );
    assert_eq!(parse_average_latency("Average is unknown\nAverage = 9ms\n"), None);
    assert_eq!(parse_average_latency("nothing to see\n"), None);
}

#[test]
fn command_status_decides_reachability_only_without_a_loss_figure() {
    assert!(parse_ping_metrics("Reply from 1.1.1.1", true).reachable);
    assert!(!parse_ping_metrics("Request timed out.", false).reachable);
    let m = parse_ping_metrics("0% loss\nAverage = 12ms\n", false);
    assert!(m.reachable);
    assert_eq!(m.latency_ms, Some(12));
    assert_eq!(m.packet_loss_percent, Some(0));
}

#[test]
fn joins_ping_streams_with_a_line_break() {
    assert_eq!(ping_output("out", "err"), "out\nerr");
    let raw = read_ping_output(b"33.3% packet loss", b"");
    assert_eq!(raw, "33.3% packet loss\n");
    assert_eq!(parse_packet_loss(&raw), Some(33));
}

#[test]
fn decodes_utf8_and_replaces_invalid_bytes() {
    assert_eq!(decode("平均 = 5ms".as_bytes()), "平均 = 5ms");
    assert_eq!(decode(b"ok\xff"), "ok\u{fffd}");
    assert_eq!(decode(b""), "");
    assert_eq!(read_ping_output(b"a\xffb", b"c"), "a\u{fffd}b\nc");
}

#[test]
fn formats_probe_details_for_every_combination() {
    assert_eq!(
        format_probe_detail("网关", metrics(true, Some(3), Some(0))),
        "网关：平均延迟 3 ms，丢包 0%。"
    );
    assert_eq!(
        format_probe_detail("网关", metrics(true, Some(12), None)),
        "网关：平均延迟 12 ms。"
    );
    assert_eq!(
        format_probe_detail("网关", metrics(true, None, Some(33))),
        "网关：丢包 33%。"
    );
    assert_eq!(format_probe_detail("网关", metrics(true, None, None)), "网关 可达。");
}

#[test]
fn wifi_check_passes_with_an_ssid_and_fails_without() {
    let connected = wifi_check(Some("Studio"));
    assert_eq!(connected.id, DiagnosticCheckId::Wifi);
    assert_eq!(connected.status, DiagnosticStatus::Pass);
    assert_eq!(connected.title, "WiFi 已连接");
    assert_eq!(connected.detail, "当前连接：Studio");
    let missing = wifi_check(None);
    assert_eq!(missing.status, DiagnosticStatus::Fail);
    assert_eq!(missing.title, "未检测到 WiFi 连接");
}

#[test]
fn gateway_check_covers_missing_lossy_silent_and_failed_probes() {
    let none = gateway_check(None, Err(String::new()));
    assert_eq!(none.status, DiagnosticStatus::Warning);
    assert_eq!(none.title, "未识别默认网关");

    let clean = gateway_check(Some("192.168.1.1"), Ok(metrics(true, Some(2), Some(0))));
    assert_eq!(clean.status, DiagnosticStatus::Pass);
    assert_eq!(clean.title, "本地网关可达");
    assert_eq!(clean.detail, "192.168.1.1：平均延迟 2 ms，丢包 0%。");
    assert_eq!(clean.latency_ms, Some(2));

    let lossy = gateway_check(Some("192.168.1.1"), Ok(metrics(true, Some(4), Some(33))));
    assert_eq!(lossy.status, DiagnosticStatus::Warning);
    assert_eq!(lossy.title, "本地网关存在丢包");
    assert_eq!(lossy.packet_loss_percent, Some(33));

    let silent = gateway_check(Some("10.0.0.1"), Ok(metrics(false, None, Some(100))));
    assert_eq!(silent.status, DiagnosticStatus::Warning);
    assert_eq!(silent.title, "网关未响应 Ping");
    assert!(silent.detail.starts_with("已找到网关 10.0.0.1，"));
    assert_eq!(silent.packet_loss_percent, Some(100));

    let failed = gateway_check(Some("10.0.0.1"), Err("no ping".to_string()));
    assert_eq!(failed.title, "无法检测本地网关");
    assert_eq!(failed.detail, "网关 10.0.0.1 的 Ping 检查未能执行：no ping");
    assert_eq!(failed.latency_ms, None);
}

#[test]
fn dns_check_passes_only_with_addresses() {
    let ok = dns_check(Ok(2), 15);
    assert_eq!(ok.status, DiagnosticStatus::Pass);
    assert_eq!(ok.detail, "example.com 解析成功，耗时 15 ms。");
    assert_eq!(ok.latency_ms, Some(15));
    let empty = dns_check(Ok(0), 15);
    assert_eq!(empty.status, DiagnosticStatus::Fail);
    assert_eq!(empty.title, "DNS 未返回地址");
    let failed = dns_check(Err("DNS 解析超时。".to_string()), 0);
    assert_eq!(failed.title, "DNS 解析失败");
    assert_eq!(failed.detail, "DNS 解析超时。 请检查系统 DNS、路由器 DNS 或 VPN 配置。");
}

#[test]
fn internet_check_prefers_ping_and_falls_back_to_tcp() {
    let clean = internet_check(&Ok(metrics(true, Some(20), Some(0))), None).expect("ping decides");
    assert_eq!(clean.status, DiagnosticStatus::Pass);
    assert_eq!(clean.title, "互联网可达");
    assert_eq!(clean.detail, "公共网络检测端点：平均延迟 20 ms，丢包 0%。");

    let lossy = internet_check(&Ok(metrics(true, Some(20), Some(33))), None).expect("ping decides");
    assert_eq!(lossy.status, DiagnosticStatus::Warning);
    assert_eq!(lossy.title, "互联网可达，但存在丢包");

    let unanswered = Ok(metrics(false, None, Some(100)));
    assert!(internet_check(&unanswered, None).is_none());
    let tcp = internet_check(&unanswered, Some(Ok(31))).expect("tcp decides");
    assert_eq!(tcp.status, DiagnosticStatus::Pass);
    assert_eq!(tcp.latency_ms, Some(31));
    assert_eq!(tcp.packet_loss_percent, None);

    let down = internet_check(&Err("no ping".to_string()), Some(Err("无法连接外部检测端点。".to_string())))
        .expect("tcp decides");
    assert_eq!(down.status, DiagnosticStatus::Fail);
    assert_eq!(down.title, "互联网连接异常");
    assert_eq!(
        down.detail,
        "无法连接外部检测端点。 请检查路由器上网状态、防火墙、代理或 VPN。"
    );
}

#[test]
fn verdict_reasons_follow_the_first_rule_that_applies() {
    let pass = |id| check(id, DiagnosticStatus::Pass);
    let fail = |id| check(id, DiagnosticStatus::Fail);
    let warn = |id| check(id, DiagnosticStatus::Warning);

    let (o, s) = summarize(&pass(DiagnosticCheckId::Wifi), &fail(DiagnosticCheckId::Gateway), &pass(DiagnosticCheckId::Dns), &pass(DiagnosticCheckId::Internet));
    assert_eq!(o, DiagnosticOverall::Healthy);
    assert_eq!(s, "WiFi、DNS 与互联网连接均正常。");

    let (o, s) = summarize(&fail(DiagnosticCheckId::Wifi), &pass(DiagnosticCheckId::Gateway), &pass(DiagnosticCheckId::Dns), &pass(DiagnosticCheckId::Internet));
    assert_eq!(o, DiagnosticOverall::Degraded);
    assert_eq!(s, "设备可以联网，但未确认当前 WiFi 连接，可能正在使用有线网络。");

    let (o, s) = summarize(&fail(DiagnosticCheckId::Wifi), &pass(DiagnosticCheckId::Gateway), &warn(DiagnosticCheckId::Dns), &pass(DiagnosticCheckId::Internet));
    assert_eq!(o, DiagnosticOverall::Degraded);
    assert_eq!(s, "外部网络可达，但 DNS 解析异常。");

    let (o, s) = summarize(&pass(DiagnosticCheckId::Wifi), &pass(DiagnosticCheckId::Gateway), &pass(DiagnosticCheckId::Dns), &fail(DiagnosticCheckId::Internet));
    assert_eq!(o, DiagnosticOverall::Degraded);
    assert_eq!(s, "本地网络可达，但互联网连接异常。");

    for gateway in [warn(DiagnosticCheckId::Gateway), fail(DiagnosticCheckId::Gateway)] {
        let (o, s) = summarize(&pass(DiagnosticCheckId::Wifi), &gateway, &pass(DiagnosticCheckId::Dns), &fail(DiagnosticCheckId::Internet));
        assert_eq!(o, DiagnosticOverall::Offline);
        assert_eq!(s, "未确认可用的网络连接，请从 WiFi、网关到互联网逐项排查。");
    }
}

#[test]
fn report_lists_the_four_checks_in_order() {
    let connection = ConnectionIdentity {
        ssid: "Studio".to_string(),
        bssid: Some("aa:bb:cc:dd:ee:ff".to_string()),
    };
    let gateway = gateway_check(Some("192.168.1.1"), Ok(metrics(true, Some(2), Some(0))));
    let dns = dns_check(Ok(1), 9);
    let internet = internet_check(&Ok(metrics(true, Some(20), Some(0))), None).expect("ping decides");
    let report = build_report(
        "2024-01-01T00:00:00+00:00".to_string(),
        Some(connection),
        gateway,
        dns,
        internet,
    );
    assert_eq!(report.checked_at, "2024-01-01T00:00:00+00:00");
    assert_eq!(report.overall, DiagnosticOverall::Healthy);
    let ids: Vec<DiagnosticCheckId> = report.checks.iter().map(|c| c.id).collect();
    assert_eq!(
        ids,
        vec![
            DiagnosticCheckId::Wifi,
            DiagnosticCheckId::Gateway,
            DiagnosticCheckId::Dns,
            DiagnosticCheckId::Internet
        ]
    );
    assert_eq!(report.checks[0].detail, "当前连接：Studio");
    assert_eq!(report.connection.expect("kept").ssid, "Studio");

    let offline = build_report(
        String::new(),
        None,
        gateway_check(None, Err(String::new())),
        dns_check(Err("DNS 解析超时。".to_string()), 0),
        internet_check(&Err(String::new()), Some(Err("x".to_string()))).expect("tcp decides"),
    );
    assert_eq!(offline.overall, DiagnosticOverall::Offline);
    assert_eq!(offline.checks[0].status, DiagnosticStatus::Fail);
    assert!(offline.connection.is_none());
}

#[test]
fn probe_failures_and_elapsed_time() {
    let failure = internal_probe_failure(DiagnosticCheckId::Dns, "DNS 检查意外中断");
    assert_eq!(failure.id, DiagnosticCheckId::Dns);
    assert_eq!(failure.status, DiagnosticStatus::Fail);
    assert_eq!(failure.title, "DNS 检查意外中断");
    assert_eq!(failure.detail, "请重新运行诊断；如果问题持续出现，请重启 Poliwave。");
    assert_eq!(elapsed_ms(1234), 1234);
    assert_eq!(elapsed_ms(u128::from(u32::MAX) + 5), u32::MAX);
}
