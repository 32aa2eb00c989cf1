use poliwave::command_text::command_failure_message;
use poliwave::macos::{
    core_wlan_security, current_connection, current_connection_from_core_wlan,
    ensure_macos_scan_ready, scan_core_wlan, scan_macos, CoreWlanChannel, CoreWlanNetwork,
    CoreWlanSecurity, LocationAuthorization,
};
use poliwave::netsh::{is_connected_netsh_state, looks_like_netsh_interfaces, scan_windows};
use poliwave::scan::{finish_scan, mark_current_connection, mark_current_connection_from};
use poliwave::wifi::{
    band_from_frequency, channel_to_frequency, current_connection_identity, dbm_to_quality,
    has_displayable_ssid, is_enterprise_security, is_mac_address, is_netsh_band_field,
    is_non_displayable_ssid, is_open_security, make_network, parse_channel, parse_channel_band,
    parse_signal_dbm, quality_to_dbm, synthetic_bssid, CurrentConnection, ScanError,
    ScanIssueCode, ScanRecoveryAction, WifiBand, WifiNetwork,
};

fn network(ssid: &str, bssid: &str, signal: i32, channel: u16) -> WifiNetwork {
    make_network(
        ssid.to_string(),
        bssid.to_string(),
        signal,
        channel,
        "WPA2".to_string(),
        None,
    )
}

#[test]
fn converts_between_signal_and_quality() {
    assert_eq!(dbm_to_quality(-57), 86);
    assert_eq!(dbm_to_quality(-100), 0);
    assert_eq!(dbm_to_quality(-120), 0);
    assert_eq!(dbm_to_quality(-30), 100);
    assert_eq!(quality_to_dbm(86), -57);
    assert_eq!(quality_to_dbm(0), -100);
    assert_eq!(quality_to_dbm(255), 27);
    for q in (0..=100u8).step_by(2) {
        assert_eq!(dbm_to_quality(quality_to_dbm(q)), q);
    }
    assert_eq!(dbm_to_quality(quality_to_dbm(87)), 86);
    for dbm in -100..=-50 {
        assert_eq!(quality_to_dbm(dbm_to_quality(dbm)), dbm);
    }
}

#[test]
fn maps_channels_to_frequencies_and_bands() {
    assert_eq!(channel_to_frequency(1), 2412);
    assert_eq!(channel_to_frequency(14), 2484);
    assert_eq!(channel_to_frequency(36), 5180);
    assert_eq!(channel_to_frequency(149), 5745);
    assert_eq!(channel_to_frequency(20), 6050);
    assert_eq!(channel_to_frequency(0), 0);
    assert_eq!(channel_to_frequency(234), 0);
    assert_eq!(band_from_frequency(2412), "2.4GHz");
    assert_eq!(band_from_frequency(5745), "5GHz");
    assert_eq!(band_from_frequency(6050), "6GHz");
    assert_eq!(band_from_frequency(0), "Unknown");
    for channel in 0..=300u16 {
        let frequency = channel_to_frequency(channel);
        let band = band_from_frequency(frequency);
        match channel {
            1..=14 => assert_eq!(band, "2.4GHz"),
            32..=177 => assert_eq!(band, "5GHz"),
            15..=31 | 178..=233 => assert_eq!(band, "6GHz"),
            _ => assert_eq!(frequency, 0),
        }
    }
}

#[test]
fn band_frequencies_lie_in_the_labelled_band() {
    assert_eq!(WifiBand::Ghz6.frequency(2), 5935);
    assert_eq!(WifiBand::Ghz6.frequency(5), 5975);
    assert_eq!(WifiBand::Ghz5.frequency(36), 5180);
    assert_eq!(WifiBand::Ghz2.frequency(14), 2484);
    assert_eq!(WifiBand::Ghz2.frequency(36), 0);
    for band in [WifiBand::Ghz2, WifiBand::Ghz5, WifiBand::Ghz6] {
        for channel in 0..=300u16 {
            let frequency = band.frequency(channel);
            if frequency != 0 {
                assert_eq!(band_from_frequency(frequency), band.label());
            }
        }
    }
    let moved = network("Lab", "aa:bb:cc:dd:ee:ff", -50, 37).with_band(Some(WifiBand::Ghz6));
    assert_eq!(moved.band, "6GHz");
    assert_eq!(moved.frequency_mhz, 6135);
    let kept = network("Lab", "aa:bb:cc:dd:ee:ff", -50, 37).with_band(None);
    assert_eq!(kept.band, "5GHz");
    assert_eq!(kept.frequency_mhz, 5185);
}

#[test]
fn builds_networks_with_derived_fields() {
    let n = make_network(
        "Cafe".to_string(),
        "aa:bb:cc:dd:ee:ff".to_string(),
        -57,
        6,
        String::new(),
        None,
    );
    assert_eq!(n.security, "Unknown");
    assert_eq!(n.quality, 86);
    assert_eq!(n.frequency_mhz, 2437);
    assert_eq!(n.band, "2.4GHz");
    assert!(!n.is_connected);
    let q = make_network(
        "Cafe".to_string(),
        "aa:bb:cc:dd:ee:ff".to_string(),
        -57,
        6,
        "Open".to_string(),
        Some(40),
    );
    assert_eq!(q.quality, 40);
    assert!(is_open_security("无"));
    assert!(is_open_security("NONE"));
    assert!(!is_open_security("WPA2"));
    assert!(is_enterprise_security("wpa2-ENTERPRISE"));
}

#[test]
fn reads_netsh_and_system_profiler_fields() {
    assert_eq!(parse_channel("149"), Some(149));
    assert_eq!(parse_channel("37 (6GHz, 80MHz)"), Some(37));
    assert_eq!(parse_channel("x"), None);
    assert!(matches!(parse_channel_band("37 (6GHz, 80MHz)"), Some(WifiBand::Ghz6)));
    assert!(matches!(parse_channel_band("11 (2GHz, 20MHz)"), Some(WifiBand::Ghz2)));
    assert!(matches!(parse_channel_band("5 GHz"), Some(WifiBand::Ghz5)));
    assert!(parse_channel_band("149").is_none());
    assert_eq!(parse_signal_dbm("-63 dBm / -101 dBm"), Some(-63));
    assert_eq!(parse_signal_dbm("no signal"), None);
    assert!(is_netsh_band_field("Band : 6 GHz"));
    assert!(!is_netsh_band_field("Channel : 37"));
    assert!(is_connected_netsh_state("connected"));
    assert!(!is_connected_netsh_state("disconnected"));
    assert!(looks_like_netsh_interfaces("Name : Wi-Fi\nState : connected\n"));
    assert!(!looks_like_netsh_interfaces("SSID 1 : Studio\n"));
}

#[test]
fn recognises_mac_addresses_and_hidden_names() {
    assert!(is_mac_address("aa:bb:cc:dd:ee:ff"));
    assert!(is_mac_address(" AA:BB:CC:DD:EE:FF "));
    assert!(!is_mac_address("aa-bb-cc-dd-ee-ff"));
    assert!(!is_mac_address("aa:bb:cc:dd:ee"));
    assert!(!is_mac_address("gg:bb:cc:dd:ee:ff"));
    assert!(is_non_displayable_ssid(""));
    assert!(is_non_displayable_ssid("<redacted>"));
    assert!(is_non_displayable_ssid("<hidden>"));
    assert!(!is_non_displayable_ssid("Studio"));
    assert!(!has_displayable_ssid(&Vec::new()));
    assert!(has_displayable_ssid(&vec![network("Studio", "aa:bb:cc:dd:ee:ff", -50, 6)]));
}

#[test]
fn synthetic_bssids_are_stable_mac_addresses() {
    let a = synthetic_bssid("Studio", 149, 0);
    assert!(is_mac_address(&a));
    assert_eq!(a, synthetic_bssid("Studio", 149, 0));
    assert_ne!(a, synthetic_bssid("Studio", 36, 0));
    assert_ne!(a, synthetic_bssid("Studio", 149, 1));
    assert_ne!(a, synthetic_bssid("Guest", 149, 0));
    assert_ne!(a, "Studio");
}

#[test]
fn scan_errors_carry_their_details() {
    let e = ScanError::scan_failed("boom".to_string());
    assert_eq!(e.code, ScanIssueCode::ScanFailed);
    assert_eq!(e.title, "扫描失败");
    assert_eq!(e.recovery_action, Some(ScanRecoveryAction::Retry));
    assert_eq!(e.details.as_deref(), Some("boom"));
    let n = ScanError::new(
        ScanIssueCode::WifiDisabled,
        "t".to_string(),
        "m".to_string(),
        None,
        None,
    );
    assert_eq!(n.code, ScanIssueCode::WifiDisabled);
    assert_eq!(n.message, "m");
}

#[test]
fn macos_readiness_names_the_first_failing_condition() {
    let check = |services, auth, power| ensure_macos_scan_ready(services, auth, power);
    assert_eq!(
        check(false, LocationAuthorization::Denied, None).unwrap_err().code,
        ScanIssueCode::LocationServicesDisabled
    );
    let required = check(true, LocationAuthorization::NotDetermined, Some(true)).unwrap_err();
    assert_eq!(required.code, ScanIssueCode::LocationPermissionRequired);
    assert_eq!(
        required.recovery_action,
        Some(ScanRecoveryAction::RequestLocationPermission)
    );
    assert_eq!(
        check(true, LocationAuthorization::Denied, Some(true)).unwrap_err().title,
        "定位权限已被拒绝"
    );
    assert_eq!(
        check(true, LocationAuthorization::Restricted, Some(true)).unwrap_err().title,
        "定位权限受到系统限制"
    );
    assert_eq!(
        check(true, LocationAuthorization::Other, Some(true)).unwrap_err().title,
        "无法确认定位权限"
    );
    assert_eq!(
        check(true, LocationAuthorization::AuthorizedAlways, None).unwrap_err().code,
        ScanIssueCode::AdapterUnavailable
    );
    assert_eq!(
        check(true, LocationAuthorization::AuthorizedWhenInUse, Some(false)).unwrap_err().code,
        ScanIssueCode::WifiDisabled
    );
    assert!(check(true, LocationAuthorization::AuthorizedWhenInUse, Some(true)).is_ok());
}

#[test]
fn macos_raw_scan_prefers_a_displayable_airport_listing() {
    let airport = "                            SSID BSSID             RSSI CHANNEL HT CC SECURITY (auth/unicast/group)\n\
                   Office aa:bb:cc:dd:ee:ff -48  149     Y  US WPA2(PSK/AES/AES)\n";
    let hidden = "                            SSID BSSID             RSSI CHANNEL HT CC SECURITY (auth/unicast/group)\n\
                   <redacted> aa:bb:cc:dd:ee:ff -48  149     Y  US WPA2(PSK/AES/AES)\n";
    let chosen = poliwave::macos::scan_raw(Ok(airport.to_string()), None).expect("decided");
    assert_eq!(chosen, Ok(("airport -s".to_string(), airport.to_string())));
    assert!(poliwave::macos::scan_raw(Ok(hidden.to_string()), None).is_none());
    assert!(poliwave::macos::scan_raw(Err("no airport".to_string()), None).is_none());
    assert_eq!(
        poliwave::macos::scan_raw(Ok(hidden.to_string()), Some(Ok("profile".to_string()))),
        Some(Ok((
            "system_profiler SPAirPortDataType".to_string(),
            "profile".to_string()
        )))
    );
    assert_eq!(
        poliwave::macos::scan_raw(Err("a".to_string()), Some(Err("b".to_string()))),
        Some(Err("b".to_string()))
    );
}

#[test]
fn macos_scan_falls_back_and_reports_both_failures() {
    let named = vec![network("Studio", "aa:bb:cc:dd:ee:ff", -50, 6)];
    let (source, networks) = scan_macos(Ok(named), None).expect("decided").expect("ok");
    assert_eq!(source, "CoreWLAN");
    assert_eq!(networks.len(), 1);

    let unnamed = vec![network("<redacted>", "aa:bb:cc:dd:ee:ff", -50, 6)];
    assert!(scan_macos(Ok(unnamed.clone()), None).is_none());
    let failed = scan_macos(Err("CoreWLAN 扫描失败".to_string()), Some(Err("airport".to_string())))
        .expect("decided")
        .unwrap_err();
    assert_eq!(failed.code, ScanIssueCode::ScanFailed);
    assert_eq!(failed.details.as_deref(), Some("CoreWLAN 扫描失败 兼容扫描也失败：airport"));

    let profile = "Current Network Information:\n  Lab:\n    Channel: 6 (2GHz, 20MHz)\n    Security: WPA2 Personal\n  <redacted>:\n    Channel: 36 (5GHz, 20MHz)\n";
    let (source, networks) = scan_macos(
        Ok(unnamed.clone()),
        Some(Ok(("system_profiler SPAirPortDataType".to_string(), profile.to_string()))),
    )
    .expect("decided")
    .expect("ok");
    assert_eq!(source, "system_profiler SPAirPortDataType");
    assert_eq!(networks.len(), 1);
    assert_eq!(networks[0].ssid, "Lab");

    let empty = scan_macos(Ok(unnamed), Some(Ok(("airport -s".to_string(), String::new()))))
        .expect("decided")
        .unwrap_err();
    assert_eq!(
        empty.details.as_deref(),
        Some("CoreWLAN 未返回可显示的 WiFi 名称，请允许应用访问定位服务。")
    );
}

#[test]
fn windows_raw_scan_tries_each_netsh_mode_in_turn() {
    assert_eq!(
        poliwave::netsh::scan_raw(Ok("a".to_string()), None, None),
        Some(Ok(("netsh wlan show networks mode=bssid".to_string(), "a".to_string())))
    );
    assert!(poliwave::netsh::scan_raw(Err("e1".to_string()), None, None).is_none());
    assert_eq!(
        poliwave::netsh::scan_raw(Err("e1".to_string()), Some(Ok("b".to_string())), None),
        Some(Ok(("netsh wlan show networks".to_string(), "b".to_string())))
    );
    assert!(poliwave::netsh::scan_raw(Err("e1".to_string()), Some(Err("e2".to_string())), None).is_none());
    assert_eq!(
        poliwave::netsh::scan_raw(
            Err("e1".to_string()),
            Some(Err("e2".to_string())),
            Some(Ok("c".to_string()))
        ),
        Some(Ok(("netsh wlan show interfaces".to_string(), "c".to_string())))
    );
    assert_eq!(
        poliwave::netsh::scan_raw(
            Err("e1".to_string()),
            Some(Err("e2".to_string())),
            Some(Err("e3".to_string()))
        ),
        Some(Err("e1; fallback netsh wlan show networks failed: e2; fallback netsh wlan show interfaces failed: e3".to_string()))
    );
}

#[test]
fn windows_scan_classifies_failures_and_empty_output() {
    let denied = scan_windows(Err("Access is denied.".to_string())).unwrap_err();
    assert_eq!(denied.code, ScanIssueCode::LocationPermissionDenied);
    let other = scan_windows(Err("something odd".to_string())).unwrap_err();
    assert_eq!(other.code, ScanIssueCode::ScanFailed);
    assert_eq!(other.details.as_deref(), Some("something odd"));
    let off = scan_windows(Ok((
        "netsh wlan show interfaces".to_string(),
        "  Radio status : Hardware On\n  Software Off  \n".to_string(),
    )))
    .unwrap_err();
    assert_eq!(off.code, ScanIssueCode::WifiDisabled);
    assert_eq!(off.details.as_deref(), Some("Radio status : Hardware On\n  Software Off"));
    let (source, networks) = scan_windows(Ok(("netsh wlan show networks".to_string(), String::new())))
        .expect("no issue named");
    assert_eq!(source, "netsh wlan show networks");
    assert!(networks.is_empty());
}

#[test]
fn finished_scan_is_ordered_by_signal_then_name_and_counted() {
    let networks = vec![
        network("beta", "00:00:00:00:00:01", -60, 6),
        network("Alpha", "00:00:00:00:00:02", -60, 6),
        network("gamma", "00:00:00:00:00:03", -40, 149),
        network("alpha", "00:00:00:00:00:04", -60, 36),
        network("hidden", "00:00:00:00:00:05", -90, 0),
    ];
    let result = finish_scan("now".to_string(), "test".to_string(), networks);
    let order: Vec<&str> = result.networks.iter().map(|n| n.bssid.as_str()).collect();
    assert_eq!(
        order,
        vec![
            "00:00:00:00:00:03",
            "00:00:00:00:00:02",
            "00:00:00:00:00:04",
            "00:00:00:00:00:01",
            "00:00:00:00:00:05"
        ]
    );
    assert_eq!(result.scanned_at, "now");
    assert_eq!(result.source, "test");
    let slots: Vec<(String, u16, usize)> = result
        .channel_distribution
        .iter()
        .map(|d| (d.band.clone(), d.channel, d.network_count))
        .collect();
    assert_eq!(
        slots,
        vec![
            ("2.4GHz".to_string(), 6, 2),
            ("5GHz".to_string(), 36, 1),
            ("5GHz".to_string(), 149, 1)
        ]
    );
}

#[test]
fn scan_marks_keep_only_the_first_connected_network() {
    let mut networks = vec![
        network("a", "00:00:00:00:00:01", -60, 6),
        network("b", "00:00:00:00:00:02", -60, 6),
        network("c", "00:00:00:00:00:03", -60, 6),
    ];
    assert!(!mark_current_connection(&mut networks));
    assert!(networks.iter().all(|n| !n.is_connected));
    networks[1].is_connected = true;
    networks[2].is_connected = true;
    assert!(mark_current_connection(&mut networks));
    let flags: Vec<bool> = networks.iter().map(|n| n.is_connected).collect();
    assert_eq!(flags, vec![false, true, false]);
}

#[test]
fn marking_without_bssid_needs_a_single_candidate_or_a_signal() {
    let mut networks = vec![
        network("Studio", "00:00:00:00:00:01", -43, 36),
        network("Studio", "00:00:00:00:00:02", -58, 36),
    ];
    let current = CurrentConnection {
        ssid: "Studio".to_string(),
        bssid: None,
        channel: None,
        signal_dbm: None,
    };
    mark_current_connection_from(&mut networks, Some(&current));
    assert!(networks.iter().all(|n| !n.is_connected));

    let upper = CurrentConnection {
        bssid: Some("00:00:00:00:00:02".to_uppercase()),
        ..current.clone()
    };
    mark_current_connection_from(&mut networks, Some(&upper));
    assert!(!networks[0].is_connected && networks[1].is_connected);

    mark_current_connection_from(&mut networks, None);
    assert!(networks.iter().all(|n| !n.is_connected));

    let tie = CurrentConnection {
        signal_dbm: Some(-50),
        ..current
    };
    let mut equal = vec![
        network("Studio", "00:00:00:00:00:01", -45, 36),
        network("Studio", "00:00:00:00:00:02", -55, 36),
    ];
    mark_current_connection_from(&mut equal, Some(&tie));
    assert!(equal[0].is_connected && !equal[1].is_connected);
}

#[test]
fn core_wlan_records_become_networks() {
    assert_eq!(
        core_wlan_security(&vec![CoreWlanSecurity::Wpa2Personal, CoreWlanSecurity::Wpa3Personal]),
        "WPA3 Personal"
    );
    assert_eq!(core_wlan_security(&vec![CoreWlanSecurity::Open]), "Open");
    assert_eq!(core_wlan_security(&Vec::new()), "Unknown");

    let scanned = vec![
        CoreWlanNetwork {
            ssid: Some("Studio".to_string()),
            bssid: Some("AA:BB:CC:DD:EE:FF".to_string()),
            rssi: -50,
            channel: Some(CoreWlanChannel { number: 37, band: Some(WifiBand::Ghz6) }),
            supported_security: vec![CoreWlanSecurity::Wpa3Personal],
        },
        CoreWlanNetwork {
            ssid: None,
            bssid: None,
            rssi: -70,
            channel: None,
            supported_security: Vec::new(),
        },
        CoreWlanNetwork {
            ssid: Some("Guest".to_string()),
            bssid: None,
            rssi: -70,
            channel: Some(CoreWlanChannel { number: 70000, band: None }),
            supported_security: vec![CoreWlanSecurity::Open],
        },
    ];
    let current = current_connection_from_core_wlan(
        Some("Studio".to_string()),
        Some("AA:BB:CC:DD:EE:FF".to_string()),
        Some(37),
        -50,
    )
    .expect("connected");
    assert_eq!(current.bssid.as_deref(), Some("aa:bb:cc:dd:ee:ff"));
    let networks = scan_core_wlan(&scanned, Some(&current));
    assert_eq!(networks.len(), 2);
    assert_eq!(networks[0].bssid, "aa:bb:cc:dd:ee:ff");
    assert_eq!(networks[0].band, "6GHz");
    assert_eq!(networks[0].security, "WPA3 Personal");
    assert!(networks[0].is_connected);
    assert_eq!(networks[1].channel, 65535);
    assert!(is_mac_address(&networks[1].bssid));
    assert!(networks[1].is_open);
    assert!(!networks[1].is_connected);

    let odd = current_connection_from_core_wlan(Some("X".to_string()), Some("nope".to_string()), Some(-3), i64::MIN)
        .expect("connected");
    assert_eq!(odd.bssid, None);
    assert_eq!(odd.channel, Some(0));
    assert_eq!(odd.signal_dbm, Some(i32::MIN));
    assert!(current_connection_from_core_wlan(None, None, None, 0).is_none());
}

#[test]
fn macos_connection_falls_back_to_networksetup() {
    let core = CurrentConnection {
        ssid: "Studio".to_string(),
        bssid: None,
        channel: Some(6),
        signal_dbm: Some(-50),
    };
    let kept = current_connection(Some(core), Some("Current Wi-Fi Network: Other\n")).expect("kept");
    assert_eq!(kept.ssid, "Studio");
    let fallback = current_connection(None, Some("Current Wi-Fi Network: Other\n")).expect("read");
    assert_eq!(fallback.ssid, "Other");
    assert_eq!(fallback.channel, None);
    assert!(current_connection(None, None).is_none());

    let identity = current_connection_identity(Some(fallback)).expect("identity");
    assert_eq!(identity.ssid, "Other");
    assert_eq!(identity.bssid, None);
    assert!(current_connection_identity(None).is_none());
}

#[test]
fn failed_commands_report_their_most_telling_output() {
    assert_eq!(command_failure_message("netsh", "exit status: 1", " out ", "  err \n"), "err");
    assert_eq!(command_failure_message("netsh", "exit status: 1", " out ", "  \n"), "out");
    assert_eq!(
        command_failure_message("netsh", "exit status: 1", "", ""),
        "netsh exited with status exit status: 1"
    );
}

#[test]
fn netsh_rows_carry_lowercase_macs_and_their_quality_signal() {
    let bssid_raw = "SSID 1 : Studio\n    BSSID 1 : AA:BB:CC:DD:EE:FF\n    Signal : 60%\n    BSSID 2 : not-a-mac\n    BSSID 3 : 11:22:33:44:55:66\n";
    let rows = poliwave::netsh::parse_netsh(bssid_raw);
    assert_eq!(rows.len(), 2);
    assert!(rows.len() <= 3);
    for row in &rows {
        assert!(!row.ssid.is_empty());
        assert!(is_mac_address(&row.bssid));
        assert_eq!(row.bssid, row.bssid.to_ascii_lowercase());
        assert_eq!(row.signal_dbm, i32::from(row.quality) / 2 - 100);
        assert!(!row.is_connected);
    }
    assert_eq!(rows[0].bssid, "aa:bb:cc:dd:ee:ff");

    let interfaces = "Name : Wi-Fi\nState : connected\nSSID : Studio\nBSSID : AA:BB:CC:DD:EE:FF\nSignal : 86%\nName : Wi-Fi 2\nState : disconnected\nSSID : Other\nBSSID : 11:22:33:44:55:66\n";
    let rows = poliwave::netsh::parse_netsh_interfaces(interfaces);
    assert_eq!(rows.len(), 1);
    assert!(rows[0].is_connected);
    assert_eq!(rows[0].bssid, "aa:bb:cc:dd:ee:ff");
    assert_eq!(rows[0].signal_dbm, -57);

    let ssid_only = "SSID 1 : Cafe\n    Authentication : Open\nSSID 2 : Lab\n    BSSID 1 : aa:bb:cc:dd:ee:ff\nSSID 3 : \n";
    let rows = poliwave::netsh::parse_netsh_ssid_only(ssid_only);
    assert_eq!(rows.len(), 1);
    let row = &rows[0];
    assert_eq!(row.ssid, "Cafe");
    assert_eq!((row.channel, row.quality, row.signal_dbm, row.frequency_mhz), (0, 0, -100, 0));
    assert_eq!(row.band, "Unknown");
    assert!(is_mac_address(&row.bssid));
    assert!(!row.is_connected);

    let current = poliwave::netsh::parse_netsh_current_connection(
        "Name : Wi-Fi\nState : Connected\nSSID : Studio\nBSSID : AA:BB:CC:DD:EE:FF\n",
    )
    .expect("connected");
    assert_eq!(current.bssid.as_deref(), Some("aa:bb:cc:dd:ee:ff"));
    assert!(poliwave::netsh::parse_netsh_current_connection("Name : Wi-Fi\nSSID : Studio\n").is_none());
}

#[test]
fn synthetic_bssids_are_lowercase_local_macs() {
    for (ssid, channel, salt) in [("Studio", 149, 0), ("", 0, 7), ("测试网络", 65535, usize::MAX)] {
        let b = synthetic_bssid(ssid, channel, salt);
        assert!(is_mac_address(&b));
        assert_eq!(b.len(), 17);
        assert!(b.starts_with("02:"));
        assert_eq!(b, b.to_ascii_lowercase());
    }
}

#[test]
fn a_finished_scan_recounts_to_its_own_distribution() {
    let mut networks = vec![
        network("a", "00:00:00:00:00:01", -60, 6),
        network("b", "00:00:00:00:00:02", -40, 6),
        network("c", "00:00:00:00:00:03", -50, 36),
    ];
    networks[2].is_connected = true;
    let result = finish_scan("now".to_string(), "test".to_string(), networks);
    let again = poliwave::scan::build_channel_distribution(&result.networks);
    let pairs = |d: &Vec<poliwave::wifi::ChannelDistribution>| -> Vec<(String, u16, usize)> {
        d.iter().map(|x| (x.band.clone(), x.channel, x.network_count)).collect()
    };
    assert_eq!(pairs(&result.channel_distribution), pairs(&again));
    assert_eq!(result.networks.iter().filter(|n| n.is_connected).count(), 1);
    let total: usize = result.channel_distribution.iter().map(|d| d.network_count).sum();
    assert_eq!(total, 3);
}

#[test]
fn core_wlan_rows_have_named_lowercase_macs() {
    let scanned = vec![
        CoreWlanNetwork {
            ssid: Some("Studio".to_string()),
            bssid: Some("AA:BB:CC:DD:EE:FF".to_string()),
            rssi: -61,
            channel: None,
            supported_security: Vec::new(),
        },
        CoreWlanNetwork {
            ssid: Some("<hidden>".to_string()),
            bssid: None,
            rssi: -70,
            channel: None,
            supported_security: Vec::new(),
        },
    ];
    let rows = scan_core_wlan(&scanned, None);
    assert_eq!(rows.len(), 1);
    assert_eq!(rows[0].bssid, "aa:bb:cc:dd:ee:ff");
    assert_eq!(rows[0].quality, dbm_to_quality(rows[0].signal_dbm));
    assert!(!is_non_displayable_ssid(&rows[0].ssid));
}
