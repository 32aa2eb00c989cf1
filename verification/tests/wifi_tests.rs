use poliwave::macos::parse_airport;
use poliwave::macos::{
    parse_macos_wifi_device, parse_networksetup_current_ssid, parse_system_profiler_airport,
};
use poliwave::netsh::{
    classify_windows_scan_error, parse_netsh_current_connection, parse_windows_netsh,
    windows_scan_issue_from_text,
};
use poliwave::scan::{build_channel_distribution, mark_current_connection_from};
use poliwave::wifi::{
    has_displayable_ssid, is_mac_address, make_network, CurrentConnection, ScanIssueCode,
    ScanRecoveryAction,
};

#[test]
fn parses_airport_rows_with_spaces_in_ssid() {
    let raw = "                            SSID BSSID             RSSI CHANNEL HT CC SECURITY (auth/unicast/group)\n\
               Office Main aa:bb:cc:dd:ee:ff -48  149     Y  US WPA2(PSK/AES/AES)\n\
                     IoT Net 11:22:33:44:55:66 -79  6       Y  US WPA(PSK/TKIP/TKIP)\n";

    let rows = parse_airport(raw);

    assert_eq!(rows.len(), 2);
    assert_eq!(rows[0].ssid, "Office Main");
    assert_eq!(rows[0].band, "5GHz");
    assert_eq!(rows[1].channel, 6);
}

#[test]
fn treats_redacted_airport_rows_as_not_displayable() {
    let raw = "                            SSID BSSID             RSSI CHANNEL HT CC SECURITY (auth/unicast/group)\n\
                   <redacted> aa:bb:cc:dd:ee:ff -48  149     Y  US WPA2(PSK/AES/AES)\n\
                     <hidden> 11:22:33:44:55:66 -79  6       Y  US WPA(PSK/TKIP/TKIP)\n";

    let rows = parse_airport(raw);

    assert_eq!(rows.len(), 2);
    assert!(!has_displayable_ssid(&rows));
}

#[test]
fn parses_current_connection_from_netsh_interfaces() {
    let raw = r#"Name                   : Wi-Fi
State                  : connected
SSID                   : Studio-5G
BSSID                  : aa:bb:cc:dd:ee:ff
Channel                : 149
Signal                 : 86%
"#;

    let current = parse_netsh_current_connection(raw).expect("connected WiFi");
    assert_eq!(current.ssid, "Studio-5G");
    assert_eq!(current.bssid.as_deref(), Some("aa:bb:cc:dd:ee:ff"));
    assert_eq!(current.channel, Some(149));
    assert_eq!(current.signal_dbm, Some(-57));
}

#[test]
fn preserves_connected_interface_when_another_adapter_is_disconnected() {
    let connected = "Name : Wi-Fi\nState : connected\nSSID : Studio\nBSSID : aa:bb:cc:dd:ee:ff\nSignal : 86%\nChannel : 149\n";
    let disconnected = "Name : Wi-Fi 2\nState : disconnected\n";
    for raw in [
        format!("{connected}\n{disconnected}"),
        format!("{disconnected}\n{connected}"),
    ] {
        let current = parse_netsh_current_connection(&raw).expect("the active adapter");
        assert_eq!(current.ssid, "Studio");
        assert_eq!(current.bssid.as_deref(), Some("aa:bb:cc:dd:ee:ff"));
    }
}

#[test]
fn keeps_explicit_6ghz_band_for_overlapping_channel_numbers() {
    for (channel, frequency) in [(5, 5975), (37, 6135), (149, 6695)] {
        let raw = format!("SSID 1 : Lab-6E\nAuthentication : WPA3-Personal\nBSSID 1 : aa:bb:cc:dd:ee:ff\nSignal : 86%\nBand : 6 GHz\nChannel : {channel}\n");
        let rows = parse_windows_netsh(&raw);
        assert_eq!(rows[0].band, "6GHz");
        assert_eq!(rows[0].frequency_mhz, frequency);
        assert_eq!(build_channel_distribution(&rows)[0].band, "6GHz");
    }
}

#[test]
fn parses_6ghz_band_in_connected_interface_fallback() {
    let raw = "Name : Wi-Fi\nState : connected\nSSID : Lab-6E\nBSSID : aa:bb:cc:dd:ee:ff\nSignal : 86%\nBand : 6 GHz\nChannel : 37\n";
    let rows = parse_windows_netsh(raw);
    assert_eq!(rows[0].band, "6GHz");
    assert_eq!(rows[0].frequency_mhz, 6135);
    assert!(rows[0].is_connected);
}

#[test]
fn preserves_system_profiler_band_context() {
    let raw = "Current Network Information:\n  Lab-6E:\n    Channel: 37 (6GHz, 80MHz)\n    Security: WPA3 Personal\n    Signal / Noise: -48 dBm / -95 dBm\n";
    let rows = parse_system_profiler_airport(raw);
    assert_eq!(rows[0].band, "6GHz");
    assert_eq!(rows[0].frequency_mhz, 6135);
}

#[test]
fn does_not_substitute_a_different_bssid_when_the_known_ap_is_missing() {
    let mut networks = vec![make_network(
        "Studio".to_string(),
        "00:00:00:00:00:02".to_string(),
        -43,
        149,
        "WPA2".to_string(),
        None,
    )];
    let current = CurrentConnection {
        ssid: "Studio".to_string(),
        bssid: Some("00:00:00:00:00:01".to_string()),
        channel: Some(149),
        signal_dbm: Some(-43),
    };
    mark_current_connection_from(&mut networks, Some(&current));
    assert!(!networks[0].is_connected);
}

#[test]
fn classifies_windows_scan_recovery_failures() {
    let permission = classify_windows_scan_error(
        "Access is denied. Location permission is required to access WLAN data.",
    );
    assert_eq!(permission.code, ScanIssueCode::LocationPermissionDenied);
    assert_eq!(
        permission.recovery_action,
        Some(ScanRecoveryAction::OpenLocationSettings)
    );

    let wifi_off = windows_scan_issue_from_text("Radio status : Hardware On Software Off")
        .expect("WiFi disabled issue");
    assert_eq!(wifi_off.code, ScanIssueCode::WifiDisabled);

    let adapter = windows_scan_issue_from_text("There is no wireless interface on the system.")
        .expect("adapter issue");
    assert_eq!(adapter.code, ScanIssueCode::AdapterUnavailable);
}

#[test]
fn parses_windows_bssid_scan_rows() {
    let raw = r#"Interface name : Wi-Fi
There are 1 networks currently visible.

SSID 1 : Studio-5G
    Network type            : Infrastructure
    Authentication          : WPA2-Personal
    Encryption              : CCMP
    BSSID 1                 : aa:bb:cc:dd:ee:ff
         Signal             : 86%
         Radio type         : 802.11ac
         Channel            : 149
"#;

    let rows = parse_windows_netsh(raw);

    assert_eq!(rows.len(), 1);
    assert_eq!(rows[0].ssid, "Studio-5G");
    assert_eq!(rows[0].bssid, "aa:bb:cc:dd:ee:ff");
    assert_eq!(rows[0].quality, 86);
    assert_eq!(rows[0].channel, 149);
    assert_eq!(rows[0].band, "5GHz");
    assert!(!rows[0].is_connected);
}

#[test]
fn parses_windows_interfaces_as_connected_fallback() {
    let raw = r#"Name                   : Wi-Fi
Description            : Wireless Adapter
GUID                   : 00000000-0000-0000-0000-000000000000
Physical address       : 11:22:33:44:55:66
State                  : connected
SSID                   : Studio-5G
BSSID                  : aa:bb:cc:dd:ee:ff
Network type           : Infrastructure
Radio type             : 802.11ac
Authentication         : WPA2-Personal
Cipher                 : CCMP
Channel                : 149
Signal                 : 86%
"#;

    let rows = parse_windows_netsh(raw);

    assert_eq!(rows.len(), 1);
    assert_eq!(rows[0].ssid, "Studio-5G");
    assert_eq!(rows[0].bssid, "aa:bb:cc:dd:ee:ff");
    assert_eq!(rows[0].quality, 86);
    assert_eq!(rows[0].channel, 149);
    assert!(rows[0].is_connected);
}

#[test]
fn parses_windows_ssid_only_scan_rows_when_bssid_mode_is_unavailable() {
    let raw = r#"Interface name : Wi-Fi
There are 2 networks currently visible.

SSID 1 : Studio-5G
    Network type            : Infrastructure
    Authentication          : WPA2-Personal
    Encryption              : CCMP

SSID 2 : Cafe Guest
    Network type            : Infrastructure
    Authentication          : Open
    Encryption              : None
"#;

    let rows = parse_windows_netsh(raw);

    assert_eq!(rows.len(), 2);
    assert_eq!(rows[0].ssid, "Studio-5G");
    assert_eq!(rows[0].quality, 0);
    assert_eq!(rows[0].channel, 0);
    assert!(is_mac_address(&rows[0].bssid));
    assert_eq!(rows[1].ssid, "Cafe Guest");
    assert!(rows[1].is_open);
}

#[test]
fn parses_system_profiler_wifi_sections_when_airport_scan_is_empty() {
    let raw = r#"Wi-Fi:

      Interfaces:
        en1:
          Status: Connected
          Current Network Information:
            ZhaoPin-Employee:
              PHY Mode: 802.11ac
              Channel: 52 (5GHz, 20MHz)
              Network Type: Infrastructure
              Security: WPA2 Enterprise
              Signal / Noise: -63 dBm / -101 dBm
          Other Local Wi-Fi Networks:
            ZhaoPin-Guest:
              PHY Mode: 802.11b/g/n
              Channel: 11 (2GHz, 20MHz)
              Network Type: Infrastructure
              Security: None
            ZhaoPin-Mgmt:
              PHY Mode: 802.11a/n/ac
              Channel: 36 (5GHz, 20MHz)
              Network Type: Infrastructure
              Security: WPA2 Enterprise
"#;

    let rows = parse_system_profiler_airport(raw);

    assert_eq!(rows.len(), 3);
    assert_eq!(rows[0].ssid, "ZhaoPin-Employee");
    assert_eq!(rows[0].signal_dbm, -63);
    assert_eq!(rows[0].band, "5GHz");
    assert!(rows[0].is_connected);
    assert_eq!(rows[1].ssid, "ZhaoPin-Guest");
    assert_eq!(rows[1].band, "2.4GHz");
    assert!(!rows[1].is_connected);
    assert!(is_mac_address(&rows[1].bssid));
}

#[test]
fn parses_macos_wifi_device_from_networksetup_hardware_ports() {
    let raw = r#"Hardware Port: Ethernet
Device: en0
Ethernet Address: d0:11:e5:0b:ef:20

Hardware Port: Wi-Fi
Device: en1
Ethernet Address: d0:11:e5:03:28:84
"#;

    assert_eq!(parse_macos_wifi_device(raw).as_deref(), Some("en1"));
}

#[test]
fn parses_current_ssid_from_networksetup_output() {
    assert_eq!(
        parse_networksetup_current_ssid("Current Wi-Fi Network: Studio-5G\n").as_deref(),
        Some("Studio-5G")
    );
    assert_eq!(
        parse_networksetup_current_ssid("You are not associated with an AirPort network.\n"),
        None
    );
}

#[test]
fn marks_open_and_enterprise_security_flags() {
    let open = make_network(
        "Cafe".to_string(),
        "00:00:00:00:00:01".to_string(),
        -60,
        6,
        "Open".to_string(),
        None,
    );
    assert!(open.is_open);
    assert!(!open.is_enterprise);

    let enterprise = make_network(
        "Corp".to_string(),
        "00:00:00:00:00:02".to_string(),
        -60,
        36,
        "WPA2 Enterprise".to_string(),
        None,
    );
    assert!(!enterprise.is_open);
    assert!(enterprise.is_enterprise);

    let dot1x = make_network(
        "Corp2".to_string(),
        "00:00:00:00:00:03".to_string(),
        -60,
        36,
        "WPA2 802.1X".to_string(),
        None,
    );
    assert!(dot1x.is_enterprise);

    let psk = make_network(
        "Home".to_string(),
        "00:00:00:00:00:04".to_string(),
        -60,
        149,
        "WPA2(PSK/AES/AES)".to_string(),
        None,
    );
    assert!(!psk.is_open);
    assert!(!psk.is_enterprise);

    let dash = make_network(
        "FreeWifi".to_string(),
        "00:00:00:00:00:05".to_string(),
        -60,
        1,
        "--".to_string(),
        None,
    );
    assert!(dash.is_open);
}

#[test]
fn marks_only_the_exact_connected_bssid() {
    let mut networks = vec![
        make_network(
            "Studio".to_string(),
            "00:00:00:00:00:01".to_string(),
            -43,
            149,
            "WPA2".to_string(),
            None,
        ),
        make_network(
            "Studio".to_string(),
            "00:00:00:00:00:02".to_string(),
            -55,
            149,
            "WPA2".to_string(),
            None,
        ),
    ];
    let current = CurrentConnection {
        ssid: "Studio".to_string(),
        bssid: Some("00:00:00:00:00:02".to_string()),
        channel: Some(149),
        signal_dbm: Some(-55),
    };

    mark_current_connection_from(&mut networks, Some(&current));

    assert!(!networks[0].is_connected);
    assert!(networks[1].is_connected);
}

#[test]
fn uses_channel_and_signal_when_the_current_bssid_is_unavailable() {
    let mut networks = vec![
        make_network(
            "Studio".to_string(),
            "00:00:00:00:00:01".to_string(),
            -43,
            36,
            "WPA2".to_string(),
            None,
        ),
        make_network(
            "Studio".to_string(),
            "00:00:00:00:00:02".to_string(),
            -58,
            149,
            "WPA2".to_string(),
            None,
        ),
    ];
    let current = CurrentConnection {
        ssid: "Studio".to_string(),
        bssid: None,
        channel: Some(149),
        signal_dbm: Some(-57),
    };

    mark_current_connection_from(&mut networks, Some(&current));

    assert!(!networks[0].is_connected);
    assert!(networks[1].is_connected);
}

#[test]
fn counts_scanned_bssids_per_channel_without_inferring_load() {
    let networks = vec![
        make_network(
            "Studio".to_string(),
            "00:00:00:00:00:01".to_string(),
            -43,
            149,
            "WPA2".to_string(),
            None,
        ),
        make_network(
            "Guest".to_string(),
            "00:00:00:00:00:02".to_string(),
            -55,
            149,
            "WPA2".to_string(),
            None,
        ),
    ];
    let distribution = build_channel_distribution(&networks);

    assert_eq!(distribution.len(), 1);
    assert_eq!(distribution[0].band, "5GHz");
    assert_eq!(distribution[0].channel, 149);
    assert_eq!(distribution[0].network_count, 2);
}

#[test]
fn parses_chinese_netsh_field_names() {
    let raw = "SSID 1 : 测试网络\n    BSSID 1 : aa:bb:cc:dd:ee:ff\n    信号 : 86%\n    信道 : 149\n";
    let rows = parse_windows_netsh(raw);
    assert_eq!(rows.len(), 1);
    assert_eq!(rows[0].ssid, "测试网络");
    assert_eq!(rows[0].signal_dbm, -57);
    assert_eq!(rows[0].channel, 149);
}

#[test]
fn ssid_only_blocks_each_give_one_network_in_order() {
    let raw = "Authentication : WPA2\nSSID 1 : A\n    Authentication : Open\nSSID 2 : B\n    BSSID 1 : aa:bb:cc:dd:ee:ff\nSSID 3 : C\n";
    let rows = poliwave::netsh::parse_netsh_ssid_only(raw);
    let names: Vec<&str> = rows.iter().map(|n| n.ssid.as_str()).collect();
    assert_eq!(names, vec!["A", "C"]);
    assert_eq!(rows[0].security, "Open");
    assert_eq!(rows[1].security, "Unknown");
    assert_eq!(rows[0].bssid, poliwave::wifi::synthetic_bssid("A", 0, 1));
    assert_eq!(rows[1].bssid, poliwave::wifi::synthetic_bssid("C", 0, 3));
}
