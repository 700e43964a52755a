use pi_dashboard::metrics::{
    abbreviate_status, df_percent_text, filter_ips, first_words, meminfo_value,
    parse_cpu_aggregate, parse_cpu_cores, parse_diskstats, parse_docker_ps, parse_duration,
    parse_meminfo, parse_millidegrees, parse_net_dev, parse_usage_usec, tailscale_state,
    wrapping_add_u64,
};

#[test]
fn abbreviate_status_up_units() {
    assert_eq!(abbreviate_status("Up 45 seconds"), "45s");
    assert_eq!(abbreviate_status("Up 1 second"), "1s");
    assert_eq!(abbreviate_status("Up 5 minutes"), "5m");
    assert_eq!(abbreviate_status("Up 2 hours"), "2h");
    assert_eq!(abbreviate_status("Up 3 days"), "3d");
    assert_eq!(abbreviate_status("Up 1 weeks"), "1w");
    assert_eq!(abbreviate_status("Up 2 months"), "2mo");
    assert_eq!(abbreviate_status("Up 1 years"), "1y");
}

#[test]
fn abbreviate_status_special_and_health() {
    assert_eq!(abbreviate_status("Up About an hour"), "1h");
    assert_eq!(abbreviate_status("Up Less than a second"), "0s");
    assert_eq!(abbreviate_status("Up 2 hours (healthy)"), "2h");
    assert_eq!(abbreviate_status("Up 2 hours (unhealthy)"), "2h");
}

#[test]
fn abbreviate_status_exited_and_restarting() {
    assert_eq!(abbreviate_status("Exited (0) 3 hours ago"), "Ex0 3h");
    assert_eq!(abbreviate_status("Exited (137) 5 minutes ago"), "Ex137 5m");
    assert_eq!(abbreviate_status("Restarting (1) 5 seconds ago"), "Rst 5s");
}

#[test]
fn abbreviate_status_states_and_fallback() {
    assert_eq!(abbreviate_status("Created"), "New");
    assert_eq!(abbreviate_status("Paused"), "Paus");
    assert_eq!(abbreviate_status("Unknown weird state"), "Unknown weird state");
}

#[test]
fn parse_duration_units() {
    assert_eq!(parse_duration("45 seconds"), Some((45, "s")));
    assert_eq!(parse_duration("2 months"), Some((2, "mo")));
    assert_eq!(parse_duration("x hours"), None);
}

const NET_DEV: &str = "Inter-|   Receive                                                |  Transmit\n face |bytes    packets errs drop fifo frame compressed multicast|bytes    packets errs drop fifo colls carrier compressed\n    lo: 1000      10    0    0    0     0          0         0     1000      10    0    0    0     0       0          0\n  eth0: 5000      50    0    0    0     0          0         0     7000      70    0    0    0     0       0          0\n docker0: 900      9    0    0    0     0          0         0     800      8    0    0    0     0       0          0\n wlan0: 300      3    0    0    0     0          0         0     200      2    0    0    0     0       0          0\n";

#[test]
fn net_dev_sums_physical_interfaces() {
    assert_eq!(parse_net_dev(NET_DEV), (5300, 7200));
    assert_eq!(parse_net_dev("only one line\n"), (0, 0));
}

#[test]
fn net_dev_totals_wrap() {
    let text = "h\nh\n a: 18446744073709551615 0 0 0 0 0 0 0 1 0\n b: 2 0 0 0 0 0 0 0 1 0\n";
    assert_eq!(parse_net_dev(text), (1, 2));
    assert_eq!(wrapping_add_u64(u64::MAX, 3), 2);
}

#[test]
fn diskstats_primary_device() {
    let text = " 179       0 mmcblk0 100 0 2048 0 50 0 4096 0 0 0 0 0 0\n 179       1 mmcblk0p1 1 0 2 0 3 0 4 0 0 0 0 0 0\n";
    assert_eq!(parse_diskstats(text), Some((2048, 4096)));
    assert_eq!(parse_diskstats("  8 0 sda 1 2 3 4 5 6 7 8 9 10 11\n"), None);
    let bad = " 179 0 mmcblk0 1 0 x 0 1 0 2 0 0 0 0\n 179 0 mmcblk0 1 0 5 0 1 0 6 0 0 0 0\n";
    assert_eq!(parse_diskstats(bad), None);
}

#[test]
fn usage_usec_line() {
    assert_eq!(parse_usage_usec("usage_usec 12345\nuser_usec 1\n"), Some(12345));
    assert_eq!(parse_usage_usec("user_usec 1\n"), None);
    assert_eq!(parse_usage_usec("usage_usec abc\n"), None);
}

#[test]
fn meminfo_used_and_total() {
    let text = "MemTotal:        7801000 kB\nMemFree:          100000 kB\nMemAvailable:    4600000 kB\n";
    assert_eq!(parse_meminfo(text), Some((3201000, 7801000)));
    let no_avail = "MemTotal: 1000 kB\nMemFree: 400 kB\n";
    assert_eq!(parse_meminfo(no_avail), Some((600, 1000)));
    assert_eq!(parse_meminfo("MemFree: 5 kB\n"), None);
    assert_eq!(meminfo_value(text, "MemFree"), Some(100000));
    assert_eq!(meminfo_value(text, "SwapTotal"), None);
}

#[test]
fn cpu_temp_format() {
    assert_eq!(parse_millidegrees("52312\n"), Some(52312));
    assert_eq!(parse_millidegrees("-1500"), Some(-1500));
    assert_eq!(parse_millidegrees("n/a"), None);
}

#[test]
fn cpu_cores_from_proc_stat() {
    let text = "cpu  10 0 10 70 10 0 0 0 0 0\ncpu0 1 2 3 4 5 6 7 8 9 10\ncpu1 1 1 1 x 1 1\ncpux 1 1 1 1 1\nintr 1 2 3\ncpu2 9 9 9 9 9\n";
    let cores = parse_cpu_cores(text);
    assert_eq!(cores.len(), 2);
    assert_eq!(cores[0], ("cpu0".to_string(), 55, 9));
    assert_eq!(cores[1], ("cpu1".to_string(), 5, 2));
}

#[test]
fn cpu_aggregate_line() {
    let text = "cpu  10 0 10 70 10 0 0 0 0 0\ncpu0 1 2 3 4 5\n";
    assert_eq!(parse_cpu_aggregate(text), Some((100, 80)));
    assert_eq!(parse_cpu_aggregate("cpu0 1 2 3 4 5\n"), None);
    assert_eq!(parse_cpu_aggregate("cpu  1 2 3\n"), None);
}

#[test]
fn docker_ps_rows() {
    let out = "astrbot|a1|Up 15 hours|running\nbroken line\nexited-demo|a8|Exited (0) 3 hours ago|exited|x\n";
    let rows = parse_docker_ps(out);
    assert_eq!(rows.len(), 2);
    assert_eq!(rows[0].name, "astrbot");
    assert_eq!(rows[0].id, "a1");
    assert_eq!(rows[0].status, "Up 15 hours");
    assert_eq!(rows[0].state, "running");
    assert_eq!(rows[1].state, "exited|x");
}

#[test]
fn ip_list_non_empty() {
    assert_eq!(
        filter_ips("192.168.1.250 172.17.0.1 127.0.0.1 100.118.236.1 10.0.0.2"),
        vec!["192.168.1.250".to_string(), "100.118.236.1".to_string(), "10.0.0.2".to_string()]
    );
    assert_eq!(filter_ips("127.0.0.1 172.17.0.1"), vec!["No IP".to_string()]);
    assert_eq!(filter_ips(""), vec!["No IP".to_string()]);
}

#[test]
fn tailscale_on_or_off() {
    assert_eq!(tailscale_state(Some("{\"BackendState\": \"Running\", \"x\": 1}")), "ON");
    assert_eq!(tailscale_state(Some("{\"BackendState\": \"Stopped\"}")), "OFF");
    assert_eq!(tailscale_state(None), "OFF");
}

#[test]
fn disk_usage_format() {
    assert_eq!(df_percent_text("Use%\n 11%\n").as_deref(), Some("11"));
    assert_eq!(df_percent_text("Use%\n"), None);
}

#[test]
fn load_words() {
    assert_eq!(first_words("0.52 0.58 0.59 1/180 1234\n", 3), "0.52 0.58 0.59");
    assert_eq!(first_words("0.52", 3), "0.52");
    assert_eq!(first_words("", 3), "");
}

#[test]
fn health_suffix_never_changes_abbreviation() {
    for s in ["Up 5 minutes", "Exited (0) 2 hours ago", "Created", "Up About an hour", "weird (", ""] {
        let healthy = format!("{s} (healthy)");
        let unhealthy = format!("{s} (unhealthy)");
        assert_eq!(abbreviate_status(&healthy), abbreviate_status(s));
        assert_eq!(abbreviate_status(&unhealthy), abbreviate_status(s));
    }
}
