use otiscorp_remote::identity::{
    generate_numeric_id, generate_session_password, identity_path, load_or_create, now_secs,
    Entropy, Identity,
};
use otiscorp_remote::input::{
    apply_input, code_to_cgkeycode, decode_input, inject, is_extended, key, key_unicode,
    mouse_button, read_input, scroll, type_text, InputEvent, InputFields, Injection, MouseButton,
    Platform,
};
use otiscorp_remote::netscan::{
    arp_entries, arp_text_in_order, is_device, keep_addresses, netbios_name, read_arp_table,
    resolve_hostname, scan, vendor_for_mac, ArpEntry,
};
use otiscorp_remote::sysprofile::{
    client_ram_mb, device_name_or_default, is_low_power, megabytes, other_os_name, profile,
    unknown_windows_name, windows_os_name, HardwareFacts, QualityProfile,
};
use otiscorp_remote::text::{
    chars_of, contains, decimal, ends_with, fields, find, keep_digits, lines, parse_number,
    replace, starts_with, string_of, trim, words,
};

// ---- Text ------------------------------------------------------------------

fn cs(s: &str) -> Vec<char> {
    chars_of(s)
}

fn strings(list: Vec<Vec<char>>) -> Vec<String> {
    list.iter().map(|v| string_of(v)).collect()
}

#[test]
fn text_is_trimmed_split_and_searched_like_strings() {
    for s in ["", "  a b \t\n", "\u{3000}x\u{2003}y\u{85}", "no", "a\r\nb\n\nc\r", "\n", "x.y..z."] {
        assert_eq!(string_of(trim(&cs(s))), s.trim());
        let w: Vec<String> = s.split_whitespace().map(String::from).collect();
        assert_eq!(strings(words(&cs(s))), w);
        let l: Vec<String> = s.lines().map(String::from).collect();
        assert_eq!(strings(lines(&cs(s))), l);
        let f: Vec<String> = s.split('.').map(String::from).collect();
        assert_eq!(strings(fields(&cs(s), '.')), f);
        for p in ["a", ".", "b\n", "", "x."] {
            assert_eq!(starts_with(&cs(s), &cs(p)), s.starts_with(p));
            assert_eq!(ends_with(&cs(s), &cs(p)), s.ends_with(p));
            assert_eq!(contains(&cs(s), &cs(p)), s.contains(p));
        }
    }
    assert_eq!(find(&cs("abcabc"), &cs("ca")), Some(2));
    assert_eq!(find(&cs("abc"), &cs("x")), None);
    assert_eq!(string_of(&replace(&cs("aaaba"), &cs("aa"), &cs("c"))), "aaaba".replace("aa", "c"));
    assert_eq!(string_of(&keep_digits(&cs("a1-2 3"))), "123");
}

#[test]
fn numbers_are_read_like_the_standard_ones() {
    for s in ["0", "255", "256", "+7", "-7", "", "+", "007", "1a", "99999999999999999999999"] {
        assert_eq!(parse_number(&cs(s), 255), s.parse::<u8>().ok().map(u64::from));
        assert_eq!(parse_number(&cs(s), u64::MAX), s.parse::<u64>().ok());
    }
    for n in [0u64, 9, 10, 49322, u64::MAX] {
        assert_eq!(string_of(&decimal(n)), n.to_string());
        assert_eq!(parse_number(&decimal(n), u64::MAX), Some(n));
    }
}

// ---- Identity --------------------------------------------------------------

const CLOCK: Entropy = Entropy { nanos: Some(1_700_000_000_123_456_789), pid: 4242 };

#[test]
fn numbers_come_from_the_clock_and_the_process() {
    assert_eq!(generate_numeric_id(9, CLOCK), "789987372");
    assert_eq!(generate_session_password(CLOCK), "7899");
    assert_eq!(generate_numeric_id(9, Entropy { nanos: None, pid: 1 }), "982601505");
    assert_eq!(generate_numeric_id(0, CLOCK), "");
}

#[test]
fn the_first_digit_is_never_zero() {
    assert_eq!(generate_numeric_id(9, Entropy { nanos: Some(10), pid: 0 }), "116066965");
    assert_eq!(generate_numeric_id(9, Entropy { nanos: Some(0), pid: 0 }), "100000000");
    for n in 0..500 {
        let id = generate_numeric_id(9, Entropy { nanos: Some(n), pid: 7 });
        assert_eq!(id.len(), 9);
        assert!(id.bytes().all(|b| b.is_ascii_digit()));
        assert!(!id.starts_with('0'));
    }
}

#[test]
fn only_the_lower_bits_of_the_clock_count() {
    let low = Entropy { nanos: Some(5), pid: 0 };
    let high = Entropy { nanos: Some((1 << 64) + 5), pid: 0 };
    assert_eq!(generate_numeric_id(9, low), generate_numeric_id(9, high));
}

#[test]
fn an_identity_is_made_once() {
    let (made, new) = load_or_create(None, "PC".to_string(), CLOCK, Some(1_700_000_000));
    assert!(new);
    assert_eq!(made.id, "789987372");
    assert_eq!(made.device_name, "PC");
    assert!(made.unattended);
    assert_eq!(made.created_at, 1_700_000_000);
    assert!(!made.autostart_initialized);
    let (kept, new) =
        load_or_create(Some(made), "other".to_string(), Entropy { nanos: None, pid: 9 }, None);
    assert!(!new);
    assert_eq!((kept.id.as_str(), kept.device_name.as_str()), ("789987372", "PC"));
    assert_eq!(identity_path(), "identity.json");
    assert_eq!(now_secs(None), 0);
    assert_eq!(now_secs(Some(5)), 5);
}

#[test]
fn a_device_is_renamed_but_not_to_nothing() {
    let mut identity = Identity::generate("PC".to_string(), CLOCK, None);
    assert_eq!(identity.created_at, 0);
    assert_eq!(identity.rename("  Caja 1 "), Ok(()));
    assert_eq!(identity.device_name, "Caja 1");
    assert_eq!(identity.rename(" \t"), Err("El nombre no puede estar vacio".to_string()));
    assert_eq!(identity.device_name, "Caja 1");
}

#[test]
fn autostart_is_set_up_once_it_succeeds() {
    let mut identity = Identity::generate("PC".to_string(), CLOCK, None);
    assert!(identity.wants_autostart());
    assert!(!identity.autostart_set_up(false));
    assert!(identity.wants_autostart());
    assert!(identity.autostart_set_up(true));
    assert!(!identity.wants_autostart());
}

// ---- Input -----------------------------------------------------------------

#[test]
fn buttons_have_names() {
    for platform in [Platform::Windows, Platform::MacOs] {
        for (name, button) in
            [("left", MouseButton::Left), ("right", MouseButton::Right), ("middle", MouseButton::Middle)]
        {
            assert_eq!(mouse_button(platform, name, true), Ok(Some(Injection::Mouse { button, down: true })));
        }
        assert_eq!(mouse_button(platform, "back", true), Err("boton no soportado: back".to_string()));
    }
    assert_eq!(mouse_button(Platform::Other, "back", true), Ok(None));
}

#[test]
fn the_wheel_turns_on_every_platform() {
    assert_eq!(scroll(Platform::Windows, -120), Some(Injection::Wheel { data: 0xFFFF_FF88 }));
    assert_eq!(scroll(Platform::Windows, 120), Some(Injection::Wheel { data: 120 }));
    for (delta, lines) in
        [(0, 0), (1, 1), (-1, -1), (119, 1), (120, 1), (240, 2), (-359, -2), (5000, 10), (i32::MIN, -10)]
    {
        assert_eq!(scroll(Platform::MacOs, delta), Some(Injection::Lines { lines }));
    }
    assert_eq!(scroll(Platform::Other, 120), None);
}

#[test]
fn keys_go_by_code_or_by_place() {
    assert_eq!(
        key(Platform::Windows, 0x25, "ArrowLeft", true),
        Some(Injection::VirtualKey { vk: 0x25, extended: true, up: false })
    );
    assert_eq!(
        key(Platform::Windows, 0x41, "KeyA", false),
        Some(Injection::VirtualKey { vk: 0x41, extended: false, up: true })
    );
    assert_eq!(key(Platform::Windows, 0, "KeyA", true), None);
    assert_eq!(key(Platform::MacOs, 0, "KeyA", true), Some(Injection::KeyCode { code: 0, down: true }));
    assert_eq!(key(Platform::MacOs, 0x41, "Nope", true), None);
    assert_eq!(key(Platform::Other, 0x41, "KeyA", true), None);
}

#[test]
fn extended_keys_are_known() {
    let extended: Vec<u16> = (0..=0xFFu16).filter(|vk| is_extended(*vk)).collect();
    assert_eq!(
        extended,
        [0x21, 0x22, 0x23, 0x24, 0x25, 0x26, 0x27, 0x28, 0x2D, 0x2E, 0x5B, 0x5C, 0x90, 0xA3, 0xA5]
    );
}

#[test]
fn places_have_key_codes() {
    for (code, expected) in [
        ("KeyA", Some(0)),
        ("KeyZ", Some(6)),
        ("Keya", None),
        ("Key", None),
        ("KeyAB", None),
        ("Digit0", Some(29)),
        ("Digit5", Some(23)),
        ("DigitX", None),
        ("F1", Some(122)),
        ("F12", Some(111)),
        ("F13", None),
        ("F+1", Some(122)),
        ("F01", Some(122)),
        ("F300", None),
        ("Foo", None),
        ("F", None),
        ("Enter", Some(36)),
        ("NumpadEnter", Some(36)),
        ("Escape", Some(53)),
        ("ArrowUp", Some(126)),
        ("CapsLock", Some(57)),
        ("MetaRight", Some(54)),
        ("Slash", Some(44)),
        ("", None),
    ] {
        assert_eq!(code_to_cgkeycode(code), expected, "{code}");
    }
}

#[test]
fn text_is_typed_unit_by_unit_or_at_once() {
    let typed = type_text(Platform::Windows, "aé\u{1F600}");
    let units: Vec<u16> = "aé\u{1F600}".encode_utf16().collect();
    assert_eq!(typed.len(), 2 * units.len());
    for (i, unit) in units.iter().enumerate() {
        assert_eq!(typed[2 * i], key_unicode(*unit, true));
        assert_eq!(typed[2 * i + 1], Injection::Unicode { unit: *unit, up: true });
    }
    assert_eq!(type_text(Platform::MacOs, "hola"), vec![Injection::WholeText]);
    assert!(type_text(Platform::MacOs, "").is_empty());
    assert!(type_text(Platform::Other, "hola").is_empty());
}

fn nothing() -> InputFields {
    InputFields { t: None, button: None, down: None, delta: None, vk: None, code: None, text: None }
}

#[test]
fn fields_that_are_missing_have_defaults() {
    let word = |t: &str| InputFields { t: Some(t.to_string()), ..nothing() };
    assert!(matches!(decode_input(nothing()), InputEvent::Nothing));
    assert!(matches!(decode_input(word("zoom")), InputEvent::Nothing));
    assert!(matches!(decode_input(word("move")), InputEvent::Move));
    match decode_input(word("btn")) {
        InputEvent::Button { button, down } => assert_eq!((button.as_str(), down), ("left", false)),
        _ => panic!("a button"),
    }
    assert!(matches!(decode_input(word("scroll")), InputEvent::Scroll { delta: 0 }));
    match decode_input(word("key")) {
        InputEvent::Key { vk, code, down } => assert_eq!((vk, code.as_str(), down), (0, "", false)),
        _ => panic!("a key"),
    }
    assert!(matches!(decode_input(word("text")), InputEvent::Nothing));
}

#[test]
fn numbers_in_events_are_cut_to_their_width() {
    let wide = InputFields { t: Some("scroll".to_string()), delta: Some((1 << 32) - 5), ..nothing() };
    assert!(matches!(decode_input(wide), InputEvent::Scroll { delta: -5 }));
    let far = InputFields { t: Some("scroll".to_string()), delta: Some(i64::MIN), ..nothing() };
    assert!(matches!(decode_input(far), InputEvent::Scroll { delta: 0 }));
    let key = InputFields { t: Some("key".to_string()), vk: Some(0x1_0041), ..nothing() };
    assert!(matches!(decode_input(key), InputEvent::Key { vk: 0x41, .. }));
}

#[test]
fn events_are_read_from_json() {
    match read_input(br#"{"t":"btn","button":"middle","down":true}"#) {
        InputEvent::Button { button, down } => assert_eq!((button.as_str(), down), ("middle", true)),
        _ => panic!("a button"),
    }
    assert!(matches!(read_input(br#"{"t":"scroll","delta":-240}"#), InputEvent::Scroll { delta: -240 }));
    assert!(matches!(read_input(br#"{"t":"scroll","delta":1.5}"#), InputEvent::Scroll { delta: 0 }));
    match read_input(br#"{"t":"key","vk":65,"code":"KeyA","down":true}"#) {
        InputEvent::Key { vk, code, down } => assert_eq!((vk, code.as_str(), down), (65, "KeyA", true)),
        _ => panic!("a key"),
    }
    match read_input("{\"t\":\"text\",\"text\":\"\\u00e9\"}".as_bytes()) {
        InputEvent::Text { text } => assert_eq!(text, "é"),
        _ => panic!("a text"),
    }
    assert!(matches!(read_input(br#"{"t":"key","vk":-1}"#), InputEvent::Key { vk: 0, .. }));
    assert!(matches!(read_input(b"{"), InputEvent::Nothing));
    assert!(matches!(read_input(b"[]"), InputEvent::Nothing));
}

#[test]
fn events_are_injected_where_that_is_possible() {
    let (event, injections) = apply_input(Platform::MacOs, br#"{"t":"key","code":"Tab","down":true}"#);
    assert!(matches!(event, InputEvent::Key { .. }));
    assert_eq!(injections, vec![Injection::KeyCode { code: 48, down: true }]);
    assert_eq!(inject(Platform::Windows, &InputEvent::Move), vec![Injection::MovePointer]);
    let (_, none) = apply_input(Platform::Windows, br#"{"t":"btn","button":"x"}"#);
    assert!(none.is_empty());
    for payload in [&br#"{"t":"move"}"#[..], br#"{"t":"btn"}"#, br#"{"t":"text","text":"x"}"#] {
        assert!(apply_input(Platform::Other, payload).1.is_empty());
    }
}

// ---- The network -----------------------------------------------------------

#[test]
fn vendors_are_known_by_their_prefix() {
    assert_eq!(vendor_for_mac("b8-27-eb-00-00-01"), "Raspberry Pi");
    assert_eq!(vendor_for_mac("F4:F5:D8:11:22:33"), "Google");
    assert_eq!(vendor_for_mac("64cc2e"), "Xiaomi");
    assert_eq!(vendor_for_mac("00-15-5d-aa-bb-cc"), "Microsoft");
    assert_eq!(vendor_for_mac("12-34-56-78-9a-bc"), "Desconocido");
    assert_eq!(vendor_for_mac("b8-27"), "Desconocido");
    assert_eq!(vendor_for_mac(""), "Desconocido");
}

fn pair(a: &str, b: &str) -> (String, String) {
    (a.to_string(), b.to_string())
}

#[test]
fn the_arp_table_of_windows_is_read() {
    let text = "\r\nInterface: 192.168.1.2 --- 0x7\r\n  Internet Address      Physical Address\r\n  192.168.1.1          aa-bb-cc-dd-ee-ff     dynamic\r\n  192.168.1.9\r\n  192.168.1.8  aabb\r\n";
    let found = read_arp_table(true, text.as_bytes()).unwrap();
    assert_eq!(
        found,
        vec![pair("192.168.1.1", "aa-bb-cc-dd-ee-ff")]
    );
    let odd = arp_entries(true, "x a-b\n");
    assert_eq!(keep_addresses(&odd, &vec![false]), vec![]);
    assert_eq!(keep_addresses(&odd, &vec![true]), vec![pair("x", "a-b")]);
}

#[test]
fn the_arp_table_of_other_systems_is_read() {
    let text = "host (192.168.1.10) at aa:bb:cc:dd:ee:ff on en0\n? (10.0.0.1) at <incomplete> on eth0\nnothing here\n? (1.2.3.4) on eth0\n";
    assert_eq!(
        read_arp_table(false, text.as_bytes()).unwrap(),
        vec![pair("192.168.1.10", "aa:bb:cc:dd:ee:ff"), pair("10.0.0.1", "<incomplete>")]
    );
    assert!(!arp_text_in_order(") first ( at x"));
    assert!(arp_text_in_order(text));
    assert!(read_arp_table(false, b") first ( at x").is_none());
    assert!(read_arp_table(true, b") first ( at x").is_some());
}

#[test]
fn names_are_found_in_the_netbios_table() {
    let text = "\n   Name               Type         Status\n    WORKGROUP      <00>  GROUP\n    CAJA-1         <00>  UNIQUE      Registered\n    OTRA           <00>  UNIQUE\n";
    assert_eq!(netbios_name(text), "CAJA-1");
    assert_eq!(resolve_hostname(text.as_bytes()), "CAJA-1");
    assert_eq!(netbios_name("Host not found."), "");
}

fn entry(ip: &str, mac: &str, hostname: &str) -> ArpEntry {
    ArpEntry { ip: ip.to_string(), mac: mac.to_string(), hostname: hostname.to_string() }
}

#[test]
fn broadcasts_are_no_devices() {
    assert!(is_device("192.168.1.1", "aa-bb-cc-dd-ee-ff"));
    assert!(!is_device("192.168.1.255", "aa-bb-cc-dd-ee-ff"));
    assert!(!is_device("224.0.0.22", "01-00-5e-00-00-16"));
    assert!(!is_device("255.255.255.1", "ff-ff-ff-ff-ff-ff"));
}

#[test]
fn devices_are_listed_once_and_in_order() {
    let entries = vec![
        entry("192.168.1.10", "b8-27-eb-00-00-01", ""),
        entry("192.168.1.9", "00-00-00-00-00-01", "nine"),
        entry("192.168.1.255", "ff-ff-ff-ff-ff-ff", ""),
        entry("10.0.0.200", "00-00-00-00-00-02", ""),
        entry("192.168.1.9", "64-cc-2e-00-00-03", "nine again"),
        entry("224.0.0.22", "01-00-5e-00-00-16", ""),
    ];
    let devices = scan(&entries);
    let ips: Vec<&str> = devices.iter().map(|d| d.ip.as_str()).collect();
    assert_eq!(ips, ["10.0.0.200", "192.168.1.9", "192.168.1.10"]);
    assert_eq!(devices[1].mac, "64-cc-2e-00-00-03");
    assert_eq!(devices[1].hostname, "nine again");
    assert_eq!(devices[1].vendor, "Xiaomi");
    assert_eq!(devices[2].vendor, "Raspberry Pi");
    assert!(scan(&Vec::new()).is_empty());
}

// ---- The device ------------------------------------------------------------

fn facts(brand: Option<&str>, memory: u64) -> HardwareFacts {
    HardwareFacts {
        hostname: Some("pc".to_string()),
        os_name: "OS".to_string(),
        cpu_brand: brand.map(String::from),
        cpu_cores: 4,
        total_memory: memory,
    }
}

#[test]
fn little_memory_makes_a_device_low_end() {
    let low = profile(facts(Some(" Intel Core i7 "), 4_831_838_208));
    assert!(low.is_low_end);
    assert_eq!(low.default_profile, QualityProfile::Ultralight);
    assert_eq!(low.cpu_brand, "Intel Core i7");
    assert_eq!(low.total_ram_mb, 4608);
    assert_eq!((low.hostname.as_str(), low.os_name.as_str(), low.cpu_cores), ("pc", "OS", 4));
    let just_low = profile(facts(Some("Intel Core i5"), 4_820_000_000));
    assert!(just_low.is_low_end);
    assert_eq!(just_low.default_profile, QualityProfile::Ultralight);
    assert_eq!(just_low.total_ram_mb, 4596);
    let high = profile(facts(Some("Intel Core i7"), 4_831_838_209));
    assert!(!high.is_low_end);
    assert_eq!(high.default_profile, QualityProfile::Balanced);
}

#[test]
fn processors_that_save_power_make_a_device_low_end() {
    for brand in ["Intel(R) CELERON(R) N4000", "Intel Atom x5", "Pentium Silver"] {
        assert!(profile(facts(Some(brand), u64::MAX)).is_low_end);
    }
    assert!(is_low_power("intel celeron"));
    assert!(!is_low_power("Intel CELERON"));
    for brand in [None, Some("  ")] {
        let p = profile(facts(brand, u64::MAX));
        assert_eq!(p.cpu_brand, "CPU desconocida");
        assert!(!p.is_low_end);
    }
}

#[test]
fn unknown_things_have_names() {
    assert_eq!(device_name_or_default(None), "Mi PC");
    assert_eq!(device_name_or_default(Some("x".to_string())), "x");
    assert_eq!(other_os_name(None), "Sistema");
    assert_eq!(other_os_name(Some("Linux".to_string())), "Linux");
    assert_eq!(unknown_windows_name(), "Windows");
    assert_eq!(QualityProfile::Ultralight.name(), "ultralight");
    assert_eq!(QualityProfile::Balanced.name(), "balanced");
    assert_eq!(client_ram_mb(None), 0);
    assert_eq!(client_ram_mb(Some(3_145_728)), 3);
    assert_eq!(megabytes(1_048_575), 0);
}

#[test]
fn windows_eleven_is_known_by_its_build() {
    assert_eq!(windows_os_name("Windows 10 Pro", "23H2", Some("22631")), "Windows 11 Pro 23H2");
    assert_eq!(windows_os_name("Windows 10 Pro", "22H2", Some("19045")), "Windows 10 Pro 22H2");
    assert_eq!(windows_os_name("Windows 10 Pro", "", None), "Windows 10 Pro");
    assert_eq!(windows_os_name("Windows 10 Pro", "", Some("nope")), "Windows 10 Pro");
    assert_eq!(windows_os_name("", "", Some("22631")), "Windows");
    assert_eq!(windows_os_name("Windows Server", "", Some("22631")), "Windows Server");
}
