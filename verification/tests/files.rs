use vibrometer::comments::Comments;
use vibrometer::config::{
    build_config, build_notice, constants_source, ipv4_literal, parse_config, parse_ipv4,
    ConfigError, FirmwareConfig,
};
use vibrometer::protocol::Sample;
use vibrometer::report::{
    detect_kp_ticks_from_flags, find_steady_segment, report_edges, report_gain, report_kp_ticks,
    report_segment, report_ticks, ReportError,
};
use vibrometer::session::{Recording, Selection};
use vibrometer::store::{
    columns_of_samples, comments_path, display_name, file_index, kp_ticks_text, load_recording,
    metadata_of, next_file_index, parquet_meta_str, parse_kp_ticks, parse_metadata, pick_targets,
    rebuilt_ticks_fit, recording_file_name, recording_files_by_name, recording_files_sorted,
    recordings_dir, samples_of_columns, Columns, MetaEntry, MetaError,
};
use vibrometer::text::{decimal_text, is_blank, white_space};
use vibrometer::types::{AdcCount, PacketSeq, SampleCount, SampleIndex, SampleRateHz};

fn names(list: &[&str]) -> Vec<String> {
    list.iter().map(|s| s.to_string()).collect()
}

fn entry(key: &str, value: Option<&str>) -> MetaEntry {
    MetaEntry { key: key.to_string(), value: value.map(|v| v.to_string()) }
}

#[test]
fn files_are_numbered() {
    assert_eq!(recordings_dir(), "recordings");
    assert_eq!(comments_path(), "recordings/comments.json");
    assert_eq!(recording_file_name(7), "007.parquet");
    assert_eq!(recording_file_name(1234), "1234.parquet");
    let list = names(&["001.parquet", "x.parquet", "010.parquet", "comments.json", "12.txt"]);
    assert_eq!(next_file_index(&list), 11);
    assert_eq!(next_file_index(&names(&[])), 0);
    assert_eq!(file_index("042.parquet", u32::MAX as u64), Some(42));
    assert_eq!(file_index("+7.parquet", 100), Some(7));
    assert_eq!(file_index(".parquet", 100), None);
    assert_eq!(file_index("101.parquet", 100), None);
    assert_eq!(display_name("019.parquet"), "019");
    assert_eq!(display_name("notes.txt"), "notes.txt");
}

#[test]
fn files_are_listed() {
    let list = names(&["010.parquet", "a.parquet", "002.parquet", "b.txt", "2.parquet"]);
    assert_eq!(recording_files_by_name(&list), vec![2, 0, 4, 1]);
    let sorted = recording_files_sorted(&list);
    let numbers: Vec<(u32, usize)> = sorted.iter().map(|f| (f.number, f.place)).collect();
    assert_eq!(numbers, vec![(2, 2), (2, 4), (10, 0)]);
    let picked = pick_targets(&sorted, &vec![10, 99]);
    assert_eq!(picked.len(), 1);
    assert_eq!(picked[0].number, 10);
    assert_eq!(pick_targets(&sorted, &vec![]).len(), 3);
}

#[test]
fn edge_ticks_as_text() {
    assert_eq!(kp_ticks_text(&vec![]), "[]");
    assert_eq!(kp_ticks_text(&vec![12, u64::MAX]), "[12,18446744073709551615]");
    assert_eq!(parse_kp_ticks("[12,18446744073709551615]"), Some(vec![12, u64::MAX]));
    assert_eq!(parse_kp_ticks("[]"), Some(vec![]));
    assert_eq!(parse_kp_ticks(""), Some(vec![]));
    assert_eq!(parse_kp_ticks("[ 1 ,, 2]"), Some(vec![1, 2]));
    assert_eq!(parse_kp_ticks("[1,x]"), None);
    assert_eq!(parse_kp_ticks("[18446744073709551616]"), None);
}

fn recording() -> Recording {
    Recording {
        samples: vec![
            Sample { ch0: AdcCount(-5), ch1: AdcCount(6), flags: 2, tick: 100 },
            Sample { ch0: AdcCount(7), ch1: AdcCount(-8), flags: 0, tick: 2300 },
        ],
        sample_rate: SampleRateHz(7500),
        pga: 8,
        kp_ticks: vec![150, 2000],
        filename: String::new(),
        selection: None,
    }
}

#[test]
fn recordings_are_read_back() {
    let rec = recording();
    let meta = metadata_of(&rec, Some("{}".to_string()));
    assert_eq!(parquet_meta_str(&meta, "sample_rate"), Some("7500"));
    assert_eq!(parquet_meta_str(&meta, "selection"), Some("{}"));
    assert_eq!(metadata_of(&rec, None).len(), 3);
    let columns = columns_of_samples(&rec.samples);
    let range = Selection { t_from: 1, t_to: 2 };
    let back = load_recording(&meta, &columns, "003.parquet".to_string(), Some(range)).unwrap();
    assert_eq!(back.samples, rec.samples);
    assert_eq!((back.sample_rate, back.pga), (rec.sample_rate, rec.pga));
    assert_eq!(back.kp_ticks, rec.kp_ticks);
    assert_eq!((back.filename.as_str(), back.selection), ("003.parquet", Some(range)));
}

#[test]
fn metadata_is_checked() {
    assert_eq!(parse_metadata(&vec![]).err(), Some(MetaError::NoSampleRate));
    let wide = vec![entry("sample_rate", Some("65536"))];
    assert_eq!(parse_metadata(&wide).err(), Some(MetaError::NoSampleRate));
    let bad = vec![entry("sample_rate", Some("500")), entry("kp_ticks", Some("[a]"))];
    assert_eq!(parse_metadata(&bad).err(), Some(MetaError::BadKpTicks));
    let old = vec![
        entry("sample_rate", Some("500")),
        entry("start_tick", Some("77")),
        entry("pga", Some("999")),
        entry("pga", Some("4")),
    ];
    let info = parse_metadata(&old).unwrap();
    assert_eq!((info.sample_rate, info.pga, info.start_tick), (SampleRateHz(500), 1, 77));
    assert!(info.kp_ticks.is_empty());
}

#[test]
fn files_without_ticks_get_even_ones() {
    let columns = Columns { ch0: vec![1, 2, 3], ch1: vec![0, 0, 0], flags: vec![0, 2, 0], ticks: None };
    let s = samples_of_columns(&columns, SampleRateHz(2000), 50);
    let ticks: Vec<u64> = s.iter().map(|x| x.tick).collect();
    assert_eq!(ticks, vec![50, 8050, 16050]);
    assert_eq!(report_ticks(&columns), vec![0, 2133, 4266]);
}

#[test]
fn comments_are_kept_by_file() {
    let mut c = Comments::new();
    c.insert("001.parquet".to_string(), "one".to_string());
    c.insert("001.parquet".to_string(), "uno".to_string());
    c.insert("002.parquet".to_string(), "two".to_string());
    assert_eq!(c.get(&"001.parquet".to_string()), "uno");
    assert_eq!(c.get(&"009.parquet".to_string()), "");
    assert_eq!(c.entries().len(), 2);
    c.edit("002.parquet".to_string(), &"  \t".to_string());
    assert_eq!(c.entries().len(), 1);
    c.edit("003.parquet".to_string(), &" three ".to_string());
    assert_eq!(c.get(&"003.parquet".to_string()), " three ");
    c.remove(&"001.parquet".to_string());
    assert_eq!(c.entries().len(), 1);
}

#[test]
fn texts() {
    assert_eq!(decimal_text(0), "0");
    assert_eq!(decimal_text(u64::MAX), "18446744073709551615");
    assert!(is_blank(" \n\u{a0}\u{3000}"));
    assert!(!is_blank(" x "));
    for c in (0u32..0x3100).filter_map(char::from_u32) {
        assert_eq!(white_space(c), c.is_whitespace(), "{:?}", c);
    }
    assert_eq!(AdcCount(-8_388_608).text(), "-8388608");
    assert_eq!(AdcCount(i32::MIN).text(), i32::MIN.to_string());
    assert_eq!(AdcCount(17).text(), "17");
    assert_eq!(PacketSeq(9).text(), "9");
    assert_eq!(SampleRateHz(30000).text(), "30000");
    assert_eq!(SampleIndex(3).text(), "3");
    assert_eq!(SampleCount(4).text(), "4");
    assert!(SampleRateHz(2000) == 2000u16);
    assert!(SampleIndex(5) != 6usize);
    assert_eq!(AdcCount::from(3).as_i32(), 3);
    assert_eq!(PacketSeq::from(3).as_u32(), PacketSeq(3).0);
    assert_eq!(SampleRateHz::from(3).as_u16(), 3);
    assert_eq!(SampleIndex::from(3).as_usize(), 3);
    assert_eq!(SampleCount::from(3).as_usize(), 3);
    assert_eq!(SampleCount::zero(), SampleCount(0));
}

#[test]
fn addresses() {
    for text in [
        "192.168.1.100", "0.0.0.0", "255.255.255.255", "1.2.3", "1.2.3.4.5", "256.1.1.1", "01.2.3.4",
        "1..2.3", "", "1.2.3.4 ", "a.b.c.d", "1.2.3.0004", "+1.2.3.4", ".1.2.3",
    ] {
        let want = text.parse::<core::net::Ipv4Addr>().ok().map(|a| a.octets());
        assert_eq!(parse_ipv4(text), want, "{}", text);
    }
    assert_eq!(ipv4_literal([192, 168, 1, 100]), "core::net::Ipv4Addr::new(192, 168, 1, 100)");
}

const CONFIG: &str = "[firmware]
wifi_ssid   = \"my-network\"
wifi_passwd = \"my-password\"
server_ip   = \"192.168.1.100\"
server_port = 7100
";

#[test]
fn configuration_is_read() {
    let c = parse_config(CONFIG).unwrap();
    assert_eq!((c.wifi_ssid.as_str(), c.wifi_passwd.as_str()), ("my-network", "my-password"));
    assert_eq!((c.server_ip, c.server_port), ([192, 168, 1, 100], 7100));
    assert_eq!(
        constants_source(&c),
        "
pub const WIFI_SSID: &str = \"my-network\";
pub const WIFI_PASSWD: &str = \"my-password\";
pub const SERVER_IP: core::net::Ipv4Addr = core::net::Ipv4Addr::new(192, 168, 1, 100);
pub const SERVER_PORT: u16 = 7100;
"
    );
    assert_eq!(build_notice(&c), "cargo:warning=WiFi: my-network -> 192.168.1.100:7100");
}

fn config_error(text: &str) -> Option<ConfigError> {
    parse_config(text).err()
}

#[test]
fn configuration_is_checked() {
    assert_eq!(config_error("not a table"), Some(ConfigError::NotToml));
    assert_eq!(config_error(""), Some(ConfigError::NoSsid));
    assert_eq!(config_error(&CONFIG.replace("firmware", "other")), Some(ConfigError::NoSsid));
    assert_eq!(config_error(&CONFIG.replace("wifi_ssid", "x")), Some(ConfigError::NoSsid));
    assert_eq!(config_error(&CONFIG.replace("wifi_passwd", "x")), Some(ConfigError::NoPasswd));
    assert_eq!(config_error(&CONFIG.replace("server_ip", "x")), Some(ConfigError::NoServerIp));
    assert_eq!(config_error(&CONFIG.replace("100", "300")), Some(ConfigError::BadServerIp));
    assert_eq!(config_error(&CONFIG.replace("7100", "\"7100\"")), Some(ConfigError::NoServerPort));
    let text = |s: &str| Some(s.to_string());
    let c: FirmwareConfig = build_config(text("a"), text("b"), text("1.2.3.4"), Some(-1)).ok().unwrap();
    assert_eq!(c.server_port, 65535);
    let c = build_config(text("a"), text("b"), text("1.2.3.4"), Some(65_536 + 7)).ok().unwrap();
    assert_eq!(c.server_port, 7);
}

#[test]
fn reports_choose_their_edges() {
    let flags = vec![0, 2, 3, 0, 1, 2, 0, 2, 2];
    let ticks: Vec<u64> = (0..9).map(|i| i * 10).collect();
    assert_eq!(detect_kp_ticks_from_flags(&ticks, &flags), vec![10, 50, 70]);
    assert_eq!(detect_kp_ticks_from_flags(&ticks, &vec![2, 2, 0]), vec![0]);
    assert_eq!(report_edges(vec![], &ticks, &flags), Err(ReportError::TooFewEdges(3)));
    assert_eq!(report_edges(vec![1, 2], &ticks, &flags), Err(ReportError::TooFewEdges(2)));
    assert_eq!(report_edges(vec![1, 2, 3, 4], &ticks, &flags), Ok(vec![1, 2, 3, 4]));
    assert_eq!(report_edges(vec![1, 2, 3, 4], &vec![], &vec![]), Err(ReportError::Empty));
    let meta = vec![entry("pga", Some("16")), entry("kp_ticks", Some("[1,2]"))];
    assert_eq!(report_gain(&meta), 16);
    assert_eq!(report_gain(&vec![]), 1);
    assert_eq!(report_kp_ticks(&meta), Some(vec![1, 2]));
    assert_eq!(report_kp_ticks(&vec![]), Some(vec![]));
    assert_eq!(report_kp_ticks(&vec![entry("kp_ticks", Some("[z]"))]), None);
}

#[test]
fn reports_choose_their_segment() {
    assert_eq!(find_steady_segment(&vec![2, 1, 3, 2, 1], 2), Some((2, 5)));
    assert_eq!(find_steady_segment(&vec![2, 1, 2, 1], 2), Some((0, 2)));
    assert_eq!(find_steady_segment(&vec![2, 1, 1], 3), None);
    assert_eq!(find_steady_segment(&vec![0, 0], 0), None);
    let short = vec![1, 1, 1, 1];
    let long = vec![1, 3, 2, 1];
    assert_eq!(report_segment(5, &short, &long, 2), Ok((1, 4)));
    assert_eq!(report_segment(5, &long, &short, 2), Ok((1, 4)));
    assert_eq!(report_segment(5, &short, &short, 4), Err(ReportError::NotSteady));
    assert_eq!(report_segment(4, &short, &long, 4), Err(ReportError::TooFewTurns(4)));
    assert_eq!(ReportError::Empty.text(), "пустой файл");
    assert_eq!(ReportError::TooFewEdges(3).text(), "слишком мало KP-событий: 3");
    assert_eq!(ReportError::TooFewTurns(12).text(), "мало оборотов: 12");
    assert_eq!(ReportError::NotSteady.text(), "стационарный участок не найден");
}

#[test]
fn rebuilt_ticks_stay_within_the_timer() {
    let rate = SampleRateHz(2000);
    assert!(rebuilt_ticks_fit(u64::MAX - 8000, 2, rate));
    assert!(!rebuilt_ticks_fit(u64::MAX - 7999, 2, rate));
    assert!(rebuilt_ticks_fit(u64::MAX, 1, rate));
    assert!(rebuilt_ticks_fit(7, 1, SampleRateHz(0)));
    assert!(!rebuilt_ticks_fit(7, 2, SampleRateHz(0)));
    assert!(rebuilt_ticks_fit(0, 2, SampleRateHz(0)));
    assert!(!rebuilt_ticks_fit(0, usize::MAX, SampleRateHz(1)));
}

#[test]
fn comments_as_json() {
    let c = Comments::of_json("{\"000.parquet\": \"run \\u0031\", \"001.parquet\": \"\"}");
    assert_eq!(c.entries().len(), 2);
    assert_eq!(c.find(&"000.parquet".to_string()), Some(&"run 1".to_string()));
    assert_eq!(c.find(&"001.parquet".to_string()), Some(&String::new()));
    assert_eq!(c.find(&"002.parquet".to_string()), None);
    // The last one of a file counts.
    let twice = Comments::of_json("{\"a\": \"1\", \"a\": \"2\"}");
    assert_eq!((twice.entries().len(), twice.get(&"a".to_string())), (1, "2".to_string()));
    for text in ["", "[]", "{\"a\": 1}", "{\"a\": \"1\"", "null"] {
        assert_eq!(Comments::of_json(text).entries().len(), 0);
    }
    assert_eq!(Comments::of_entries(None).entries().len(), 0);
}

#[test]
fn comments_are_read_back() {
    assert_eq!(Comments::new().to_json(), "{}");
    let mut c = Comments::new();
    c.insert("000.parquet".to_string(), "строка \"a\"\n\t\\".to_string());
    assert_eq!(c.to_json(), "{\n  \"000.parquet\": \"строка \\\"a\\\"\\n\\t\\\\\"\n}");
    c.insert("001.parquet".to_string(), "\u{1}\u{2028}".to_string());
    let back = Comments::of_json(&c.to_json());
    assert_eq!(back.entries().len(), 2);
    for e in c.entries() {
        assert_eq!(back.find(&e.file), Some(&e.text));
    }
}

#[test]
fn quantities_are_in_order() {
    assert!(SampleIndex(3) < SampleIndex(4) && SampleIndex(4) <= SampleIndex(4));
    assert!(!(SampleIndex(4) < SampleIndex(4)) && SampleIndex(5) > SampleIndex(4));
    assert_eq!(SampleIndex::from(SampleIndex(9).as_usize()), SampleIndex(9));
    assert_eq!(std::cmp::max(SampleIndex(3), SampleIndex(8)), SampleIndex(8));
    assert!(AdcCount(-1) < AdcCount(0) && PacketSeq(1) < PacketSeq(2));
    assert!(SampleCount(1) < SampleCount(2) && SampleRateHz(500) < SampleRateHz(2000));
}
