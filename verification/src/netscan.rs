//! The devices on the local network, from what the system's own tools print: the ARP table
//! for addresses, and NetBIOS for names.
use crate::text::{
    chars_of, contains, ends_with, fields, fields_of, find, first_of, from_utf8_lossy, has_part,
    has_prefix, has_suffix, is_text, lemma_first_from, lines, lines_of, lossy_text, number_in,
    occurs_at, parse_number, starts_with, string_of, trim, trimmed, views, words, words_of,
};
use vstd::prelude::*;
use vstd::utf8::{decode_utf8, valid_utf8};

verus! {

/// A device on the local network.
pub struct NetDevice {
    pub ip: String,
    pub mac: String,
    pub vendor: String,
    pub hostname: String,
}

// ---- Vendors ---------------------------------------------------------------

/// Whether a character is a hexadecimal digit.
pub open spec fn hex_digit(c: char) -> bool {
    ||| '0' <= c <= '9'
    ||| 'a' <= c <= 'f'
    ||| 'A' <= c <= 'F'
}

/// A hexadecimal digit with its letter in upper case.
pub open spec fn upper_hex(c: char) -> char {
    if 'a' <= c <= 'f' {
        (c as int - 32) as char
    } else {
        c
    }
}

/// The hexadecimal digits of a text, in upper case.
pub open spec fn hex_in(s: Seq<char>) -> Seq<char>
    decreases s.len(),
{
    if s.len() == 0 {
        s
    } else if hex_digit(s.last()) {
        hex_in(s.drop_last()).push(upper_hex(s.last()))
    } else {
        hex_in(s.drop_last())
    }
}

/// Vendor that the first three bytes of a hardware address belong to.
pub open spec fn vendor_of_prefix(prefix: Seq<char>) -> Seq<char> {
    if prefix == "F4F5D8"@ || prefix == "3C5AB4"@ || prefix == "001A11"@ {
        "Google"@
    } else if prefix == "A4772E"@ || prefix == "F0D1A9"@ || prefix == "AC87A3"@ || prefix == "00179A"@ {
        "Apple"@
    } else if prefix == "341298"@ || prefix == "8C7967"@ || prefix == "A0C589"@ {
        "Samsung"@
    } else if prefix == "B827EB"@ || prefix == "DCA632"@ {
        "Raspberry Pi"@
    } else if prefix == "00E04C"@ {
        "Realtek"@
    } else if prefix == "F81A67"@ || prefix == "50C7BF"@ || prefix == "EC086B"@ {
        "TP-Link"@
    } else if prefix == "1CFAAA"@ || prefix == "00259E"@ {
        "Huawei"@
    } else if prefix == "A85E45"@ || prefix == "FCA183"@ {
        "Amazon"@
    } else if prefix == "D8BB2C"@ || prefix == "00155D"@ {
        "Microsoft"@
    } else if prefix == "3496D7"@ || prefix == "2C56DC"@ {
        "ASUS"@
    } else if prefix == "C88D83"@ || prefix == "64CC2E"@ {
        "Xiaomi"@
    } else {
        "Desconocido"@
    }
}

/// Vendor of a hardware address.
pub open spec fn vendor_text(mac: Seq<char>) -> Seq<char> {
    if hex_in(mac).len() < 6 {
        "Desconocido"@
    } else {
        vendor_of_prefix(hex_in(mac).take(6))
    }
}

fn vendor_of(prefix: &[char]) -> (out: &'static str)
    ensures
        out@ == vendor_of_prefix(prefix@),
{
    if is_text(prefix, "F4F5D8") || is_text(prefix, "3C5AB4") || is_text(prefix, "001A11") {
        "Google"
    } else if is_text(prefix, "A4772E") || is_text(prefix, "F0D1A9") || is_text(prefix, "AC87A3") || is_text(prefix, "00179A") {
        "Apple"
    } else if is_text(prefix, "341298") || is_text(prefix, "8C7967") || is_text(prefix, "A0C589") {
        "Samsung"
    } else if is_text(prefix, "B827EB") || is_text(prefix, "DCA632") {
        "Raspberry Pi"
    } else if is_text(prefix, "00E04C") {
        "Realtek"
    } else if is_text(prefix, "F81A67") || is_text(prefix, "50C7BF") || is_text(prefix, "EC086B") {
        "TP-Link"
    } else if is_text(prefix, "1CFAAA") || is_text(prefix, "00259E") {
        "Huawei"
    } else if is_text(prefix, "A85E45") || is_text(prefix, "FCA183") {
        "Amazon"
    } else if is_text(prefix, "D8BB2C") || is_text(prefix, "00155D") {
        "Microsoft"
    } else if is_text(prefix, "3496D7") || is_text(prefix, "2C56DC") {
        "ASUS"
    } else if is_text(prefix, "C88D83") || is_text(prefix, "64CC2E") {
        "Xiaomi"
    } else {
        "Desconocido"
    }
}

/// Vendor of a hardware address, as far as it is known.
pub fn vendor_for_mac(mac: &str) -> (out: String)
    ensures
        out@ == vendor_text(mac@),
{
    let cs = chars_of(mac);
    let n: usize = cs.len();
    let mut clean: Vec<char> = Vec::new();
    for i in 0..n
        invariant
            n == cs@.len(),
            clean@ == hex_in(cs@.take(i as int)),
    {
        let c: char = cs[i];
        assert(cs@.take(i + 1).drop_last() =~= cs@.take(i as int));
        assert(cs@.take(i + 1).last() == c);
        if 'a' <= c && c <= 'f' {
            clean.push((c as u8 - 32) as char);
        } else if ('0' <= c && c <= '9') || ('A' <= c && c <= 'F') {
            clean.push(c);
        }
    }
    assert(cs@.take(n as int) =~= cs@);
    if clean.len() < 6 {
        return "Desconocido".to_owned();
    }
    assert(clean@.take(6) =~= clean@.subrange(0, 6));
    vendor_of(&clean.as_slice()[0..6]).to_owned()
}

// ---- The ARP table ---------------------------------------------------------

/// Address and hardware address in a line that Windows prints: the first two words,
/// where the second has a hyphen.
pub open spec fn windows_entry(line: Seq<char>) -> Option<(Seq<char>, Seq<char>)> {
    let w = words_of(line);
    if w.len() >= 2 && w[1].contains('-') {
        Some((w[0], w[1]))
    } else {
        None
    }
}

/// Address and hardware address in a line that other systems print: what stands between
/// the first brackets, and the first word after " at ".
pub open spec fn unix_entry(line: Seq<char>) -> Option<(Seq<char>, Seq<char>)> {
    match (first_of(line, "("@), first_of(line, ")"@), first_of(line, " at "@)) {
        (Some(open), Some(close), Some(at)) => {
            let w = words_of(line.skip(at + 4));
            if w.len() > 0 {
                Some((line.subrange(open + 1, close), w[0]))
            } else {
                None
            }
        },
        _ => None,
    }
}

/// Whether the first brackets of a line, where it has both, are in order.
pub open spec fn brackets_in_order(line: Seq<char>) -> bool {
    match (first_of(line, "("@), first_of(line, ")"@)) {
        (Some(open), Some(close)) => open < close,
        _ => true,
    }
}

/// Whether the brackets in all lines are in order.
pub open spec fn all_in_order(list: Seq<Seq<char>>) -> bool {
    forall|i: int| 0 <= i < list.len() ==> brackets_in_order(#[trigger] list[i])
}

/// The entries in some lines.
pub open spec fn entries_in(windows: bool, list: Seq<Seq<char>>) -> Seq<(Seq<char>, Seq<char>)>
    decreases list.len(),
{
    if list.len() == 0 {
        Seq::empty()
    } else {
        let before = entries_in(windows, list.drop_last());
        let entry = if windows {
            windows_entry(list.last())
        } else {
            unix_entry(list.last())
        };
        match entry {
            Some(e) => before.push(e),
            None => before,
        }
    }
}

fn has_hyphen(cs: &[char]) -> (out: bool)
    ensures
        out == cs@.contains('-'),
{
    let n: usize = cs.len();
    for i in 0..n
        invariant
            n == cs@.len(),
            forall|j: int| 0 <= j < i ==> #[trigger] cs@[j] != '-',
    {
        if cs[i] == '-' {
            assert(cs@[i as int] == '-');
            return true;
        }
    }
    false
}

/// Contents of an entry that may be missing.
pub open spec fn entry_view(entry: Option<(String, String)>) -> Option<(Seq<char>, Seq<char>)> {
    match entry {
        Some((ip, mac)) => Some((ip@, mac@)),
        None => None,
    }
}

/// Address and hardware address in a line that Windows prints.
pub fn arp_entry_windows(line: &[char]) -> (out: Option<(String, String)>)
    ensures
        entry_view(out) == windows_entry(line@),
{
    let w = words(line);
    assert(views(w@) == words_of(line@));
    if w.len() < 2 {
        return None;
    }
    assert(views(w@)[0] == w@[0]@);
    assert(views(w@)[1] == w@[1]@);
    if !has_hyphen(w[1].as_slice()) {
        return None;
    }
    Some((string_of(w[0].as_slice()), string_of(w[1].as_slice())))
}

/// Address and hardware address in a line that systems other than Windows print.
pub fn arp_entry_unix(line: &[char]) -> (out: Option<(String, String)>)
    requires
        brackets_in_order(line@),
    ensures
        entry_view(out) == unix_entry(line@),
{
    proof {
        reveal_strlit("(");
        reveal_strlit(")");
        reveal_strlit(" at ");
        lemma_first_from(line@, "("@, 0);
        lemma_first_from(line@, ")"@, 0);
        lemma_first_from(line@, " at "@, 0);
    }
    let n: usize = line.len();
    let open_mark = chars_of("(");
    let close_mark = chars_of(")");
    let at_mark = chars_of(" at ");
    let open: usize = find(line, open_mark.as_slice())?;
    let close: usize = find(line, close_mark.as_slice())?;
    let at: usize = find(line, at_mark.as_slice())?;
    assert(occurs_at(line@, ")"@, close as int));
    assert(occurs_at(line@, " at "@, at as int));
    let rest: &[char] = &line[at + 4..n];
    assert(rest@ =~= line@.skip(at + 4));
    let w = words(rest);
    assert(views(w@) == words_of(rest@));
    if w.len() == 0 {
        return None;
    }
    assert(views(w@)[0] == w@[0]@);
    Some((string_of(&line[open + 1..close]), string_of(w[0].as_slice())))
}

/// Whether the brackets in all lines of a text are in order.
pub fn arp_text_in_order(text: &str) -> (out: bool)
    ensures
        out == all_in_order(lines_of(text@)),
{
    let cs = chars_of(text);
    let list = lines(cs.as_slice());
    let n: usize = list.len();
    let open_mark = chars_of("(");
    let close_mark = chars_of(")");
    for i in 0..n
        invariant
            n == list@.len(),
            views(list@) == lines_of(text@),
            open_mark@ == "("@,
            close_mark@ == ")"@,
            forall|j: int| 0 <= j < i ==> brackets_in_order(#[trigger] lines_of(text@)[j]),
    {
        assert(views(list@)[i as int] == list@[i as int]@);
        let open = find(list[i].as_slice(), open_mark.as_slice());
        let close = find(list[i].as_slice(), close_mark.as_slice());
        if let Some(open) = open {
            if let Some(close) = close {
                if open >= close {
                    assert(!brackets_in_order(lines_of(text@)[i as int]));
                    return false;
                }
            }
        }
    }
    true
}

/// The entries in the text of an ARP table. Whether their addresses are addresses is not
/// looked at here.
pub fn arp_entries(windows: bool, text: &str) -> (out: Vec<(String, String)>)
    requires
        windows || all_in_order(lines_of(text@)),
    ensures
        out.deep_view() == entries_in(windows, lines_of(text@)),
{
    let cs = chars_of(text);
    let list = lines(cs.as_slice());
    let n: usize = list.len();
    let ghost all = lines_of(text@);
    let mut out: Vec<(String, String)> = Vec::new();
    assert(out.deep_view() =~= entries_in(windows, all.take(0)));
    for i in 0..n
        invariant
            n == list@.len(),
            views(list@) == all,
            windows || all_in_order(all),
            out.deep_view() == entries_in(windows, all.take(i as int)),
    {
        assert(all[i as int] == list@[i as int]@);
        assert(all.take(i + 1).drop_last() =~= all.take(i as int));
        assert(all.take(i + 1).last() == all[i as int]);
        let entry = if windows {
            arp_entry_windows(list[i].as_slice())
        } else {
            arp_entry_unix(list[i].as_slice())
        };
        if let Some(entry) = entry {
            let ghost before = out.deep_view();
            out.push(entry);
            assert(out.deep_view() =~= before.push((entry.0@, entry.1@)));
        }
    }
    assert(all.take(n as int) =~= all);
    out
}

/// The entries in what the tool for the ARP table has printed; none where the brackets
/// of a line are not in order.
pub fn read_arp_table(windows: bool, printed: &[u8]) -> (out: Option<Vec<(String, String)>>)
    ensures
        out is Some <==> windows || all_in_order(lines_of(lossy_text(printed@))),
        out is Some ==> out->0.deep_view() == entries_in(windows, lines_of(lossy_text(printed@))),
        valid_utf8(printed@) ==> lossy_text(printed@) == decode_utf8(printed@),
{
    let text = from_utf8_lossy(printed);
    if !windows && !arp_text_in_order(text.as_str()) {
        return None;
    }
    Some(arp_entries(windows, text.as_str()))
}

/// Those entries whose flag is set.
pub open spec fn flagged(
    entries: Seq<(Seq<char>, Seq<char>)>,
    flags: Seq<bool>,
) -> Seq<(Seq<char>, Seq<char>)>
    decreases entries.len(),
{
    if entries.len() == 0 || flags.len() != entries.len() {
        Seq::empty()
    } else {
        let before = flagged(entries.drop_last(), flags.drop_last());
        if flags.last() {
            before.push(entries.last())
        } else {
            before
        }
    }
}

/// Keeps the entries whose address is one, given a flag for each.
pub fn keep_addresses(entries: &Vec<(String, String)>, is_address: &Vec<bool>) -> (out: Vec<
    (String, String),
>)
    requires
        entries@.len() == is_address@.len(),
    ensures
        out.deep_view() == flagged(entries.deep_view(), is_address@),
{
    let n: usize = entries.len();
    let ghost all = entries.deep_view();
    let mut out: Vec<(String, String)> = Vec::new();
    assert(out.deep_view() =~= flagged(all.take(0), is_address@.take(0)));
    for i in 0..n
        invariant
            n == entries@.len() == is_address@.len(),
            all == entries.deep_view(),
            out.deep_view() == flagged(all.take(i as int), is_address@.take(i as int)),
    {
        assert(all.take(i + 1).drop_last() =~= all.take(i as int));
        assert(is_address@.take(i + 1).drop_last() =~= is_address@.take(i as int));
        if is_address[i] {
            let ghost before = out.deep_view();
            let ip = entries[i].0.as_str().to_owned();
            let mac = entries[i].1.as_str().to_owned();
            out.push((ip, mac));
            assert(out.deep_view() =~= before.push((ip@, mac@)));
            assert(all[i as int] == (ip@, mac@));
        }
    }
    assert(all.take(n as int) =~= all);
    assert(is_address@.take(n as int) =~= is_address@);
    out
}

// ---- Names -----------------------------------------------------------------

/// Whether a line of the NetBIOS table holds the name of a device.
pub open spec fn names_device(line: Seq<char>) -> bool {
    &&& has_part(trimmed(line), "<00>"@)
    &&& has_part(trimmed(line), "UNIQUE"@)
    &&& words_of(trimmed(line)).len() > 0
}

/// The name in some lines of the NetBIOS table: the first word of the first line that
/// holds one, or nothing.
pub open spec fn netbios_in(list: Seq<Seq<char>>) -> Seq<char>
    decreases list.len(),
{
    if list.len() == 0 {
        Seq::empty()
    } else if names_device(list[0]) {
        words_of(trimmed(list[0]))[0]
    } else {
        netbios_in(list.drop_first())
    }
}

/// The name in the text of a NetBIOS table.
pub fn netbios_name(text: &str) -> (out: String)
    ensures
        out@ == netbios_in(lines_of(text@)),
{
    let cs = chars_of(text);
    let list = lines(cs.as_slice());
    let n: usize = list.len();
    let ghost all = lines_of(text@);
    let group = chars_of("<00>");
    let unique = chars_of("UNIQUE");
    assert(all.skip(0) =~= all);
    for i in 0..n
        invariant
            n == list@.len(),
            views(list@) == all,
            all == lines_of(text@),
            group@ == "<00>"@,
            unique@ == "UNIQUE"@,
            netbios_in(all) == netbios_in(all.skip(i as int)),
    {
        assert(all[i as int] == list@[i as int]@);
        assert(all.skip(i as int)[0] == all[i as int]);
        assert(all.skip(i as int).drop_first() =~= all.skip(i + 1));
        let line: &[char] = trim(list[i].as_slice());
        if contains(line, group.as_slice()) && contains(line, unique.as_slice()) {
            let w = words(line);
            assert(views(w@) == words_of(line@));
            if w.len() > 0 {
                assert(views(w@)[0] == w@[0]@);
                return string_of(w[0].as_slice());
            }
        }
    }
    assert(all.skip(n as int) =~= Seq::empty());
    String::new()
}

/// The name in what the tool for NetBIOS has printed.
pub fn resolve_hostname(printed: &[u8]) -> (out: String)
    ensures
        out@ == netbios_in(lines_of(lossy_text(printed@))),
        valid_utf8(printed@) ==> lossy_text(printed@) == decode_utf8(printed@),
{
    let text = from_utf8_lossy(printed);
    netbios_name(text.as_str())
}

// ---- The list of devices ---------------------------------------------------

/// An entry of the ARP table and the name of the device, as far as it is known.
pub struct ArpEntry {
    pub ip: String,
    pub mac: String,
    pub hostname: String,
}

/// Whether an entry stands for a device, and not for a broadcast or a multicast address.
pub open spec fn stands_for_device(ip: Seq<char>, mac: Seq<char>) -> bool {
    &&& !has_suffix(ip, ".255"@)
    &&& !has_prefix(mac, "01-00-5e"@)
    &&& mac != "ff-ff-ff-ff-ff-ff"@
}

/// Whether an entry stands for a device.
pub fn is_device(ip: &str, mac: &str) -> (out: bool)
    ensures
        out == stands_for_device(ip@, mac@),
{
    let ip = chars_of(ip);
    let mac = chars_of(mac);
    let last = chars_of(".255");
    let first = chars_of("01-00-5e");
    !ends_with(ip.as_slice(), last.as_slice()) && !starts_with(mac.as_slice(), first.as_slice())
        && !is_text(mac.as_slice(), "ff-ff-ff-ff-ff-ff")
}

/// The devices in some entries by their addresses, each with its hardware address and its
/// name. Of two entries with the same address the later counts.
pub open spec fn devices_in(entries: Seq<ArpEntry>) -> Map<Seq<char>, (Seq<char>, Seq<char>)>
    decreases entries.len(),
{
    if entries.len() == 0 {
        Map::empty()
    } else {
        let before = devices_in(entries.drop_last());
        let e = entries.last();
        if stands_for_device(e.ip@, e.mac@) {
            before.insert(e.ip@, (e.mac@, e.hostname@))
        } else {
            before
        }
    }
}

/// The numbers in the fields of an address that dots separate. Fields that are no numbers
/// are left out.
pub open spec fn numbers_in(list: Seq<Seq<char>>) -> Seq<int>
    decreases list.len(),
{
    if list.len() == 0 {
        Seq::empty()
    } else {
        let before = numbers_in(list.drop_last());
        match number_in(list.last(), u32::MAX as int) {
            Some(n) => before.push(n),
            None => before,
        }
    }
}

/// What an address is sorted by.
pub open spec fn sort_key(ip: Seq<char>) -> Seq<int> {
    numbers_in(fields_of(ip, '.'))
}

/// Whether one row of numbers does not come after another: the first numbers that differ
/// decide, and a row comes before those that it starts.
pub open spec fn not_after(a: Seq<int>, b: Seq<int>) -> bool
    decreases a.len(),
{
    if a.len() == 0 {
        true
    } else if b.len() == 0 {
        false
    } else if a[0] != b[0] {
        a[0] < b[0]
    } else {
        not_after(a.drop_first(), b.drop_first())
    }
}

/// Of two rows one does not come after the other.
pub proof fn law_order_is_total(a: Seq<int>, b: Seq<int>)
    ensures
        not_after(a, b) || not_after(b, a),
    decreases a.len(),
{
    if a.len() > 0 && b.len() > 0 && a[0] == b[0] {
        law_order_is_total(a.drop_first(), b.drop_first());
    }
}

/// The order carries over from row to row.
pub proof fn law_order_is_transitive(a: Seq<int>, b: Seq<int>, c: Seq<int>)
    requires
        not_after(a, b),
        not_after(b, c),
    ensures
        not_after(a, c),
    decreases a.len(),
{
    if a.len() > 0 && b.len() > 0 && c.len() > 0 && a[0] == b[0] && b[0] == c[0] {
        law_order_is_transitive(a.drop_first(), b.drop_first(), c.drop_first());
    }
}

/// Rows of which neither comes after the other are the same.
pub proof fn law_order_is_antisymmetric(a: Seq<int>, b: Seq<int>)
    requires
        not_after(a, b),
        not_after(b, a),
    ensures
        a == b,
    decreases a.len(),
{
    if a.len() > 0 && b.len() > 0 {
        law_order_is_antisymmetric(a.drop_first(), b.drop_first());
        assert(a =~= seq![a[0]] + a.drop_first());
        assert(b =~= seq![b[0]] + b.drop_first());
    } else {
        assert(a =~= b);
    }
}

/// The numbers of a row.
pub open spec fn as_ints(row: Seq<u64>) -> Seq<int> {
    row.map_values(|n: u64| n as int)
}

fn key_of(ip: &str) -> (out: Vec<u64>)
    ensures
        as_ints(out@) == sort_key(ip@),
{
    let cs = chars_of(ip);
    let list = fields(cs.as_slice(), '.');
    let n: usize = list.len();
    let ghost all = fields_of(ip@, '.');
    let mut out: Vec<u64> = Vec::new();
    assert(as_ints(out@) =~= numbers_in(all.take(0)));
    for i in 0..n
        invariant
            n == list@.len(),
            views(list@) == all,
            as_ints(out@) == numbers_in(all.take(i as int)),
    {
        assert(all[i as int] == list@[i as int]@);
        assert(all.take(i + 1).drop_last() =~= all.take(i as int));
        assert(all.take(i + 1).last() == all[i as int]);
        if let Some(number) = parse_number(list[i].as_slice(), u32::MAX as u64) {
            let ghost before = as_ints(out@);
            out.push(number);
            assert(as_ints(out@) =~= before.push(number as int));
        }
    }
    assert(all.take(n as int) =~= all);
    out
}

fn comes_not_after(a: &Vec<u64>, b: &Vec<u64>) -> (out: bool)
    ensures
        out == not_after(as_ints(a@), as_ints(b@)),
{
    let n: usize = a.len();
    let m: usize = b.len();
    let ghost x = as_ints(a@);
    let ghost y = as_ints(b@);
    assert(x.skip(0) =~= x);
    assert(y.skip(0) =~= y);
    let mut i: usize = 0;
    while i < n && i < m
        invariant
            n == a@.len(),
            m == b@.len(),
            x == as_ints(a@),
            y == as_ints(b@),
            i <= n,
            i <= m,
            not_after(x, y) == not_after(x.skip(i as int), y.skip(i as int)),
        decreases n - i,
    {
        assert(x.skip(i as int)[0] == a@[i as int]);
        assert(y.skip(i as int)[0] == b@[i as int]);
        assert(x.skip(i as int).drop_first() =~= x.skip(i + 1));
        assert(y.skip(i as int).drop_first() =~= y.skip(i + 1));
        if a[i] != b[i] {
            return a[i] < b[i];
        }
        i = i + 1;
    }
    i == n
}

/// Whether a device is listed as what is known under its address.
pub open spec fn listed_as(
    d: NetDevice,
    known: Map<Seq<char>, (Seq<char>, Seq<char>)>,
) -> bool {
    &&& known.dom().contains(d.ip@)
    &&& known[d.ip@] == (d.mac@, d.hostname@)
    &&& d.vendor@ == vendor_text(d.mac@)
}

/// Whether a list holds the devices that are known, each once, in the order of their
/// addresses. Which of two devices comes first whose addresses sort alike is left open.
pub open spec fn lists_devices(
    list: Seq<NetDevice>,
    known: Map<Seq<char>, (Seq<char>, Seq<char>)>,
) -> bool {
    &&& forall|i: int| 0 <= i < list.len() ==> listed_as(#[trigger] list[i], known)
    &&& forall|ip: Seq<char>| #[trigger]
        known.dom().contains(ip) ==> exists|i: int| 0 <= i < list.len() && list[i].ip@ == ip
    &&& forall|i: int, j: int|
        0 <= i < j < list.len() ==> (#[trigger] list[i]).ip@ != (#[trigger] list[j]).ip@
    &&& forall|i: int, j: int|
        0 <= i < j < list.len() ==> not_after(
            sort_key((#[trigger] list[i]).ip@),
            sort_key((#[trigger] list[j]).ip@),
        )
}

/// Where a device with this address is listed.
fn find_ip(list: &Vec<NetDevice>, ip: &str) -> (at: Option<usize>)
    ensures
        match at {
            Some(i) => i < list@.len() && list@[i as int].ip@ == ip@,
            None => forall|j: int| 0 <= j < list@.len() ==> (#[trigger] list@[j]).ip@ != ip@,
        },
{
    let n: usize = list.len();
    let cs = chars_of(ip);
    for i in 0..n
        invariant
            n == list@.len(),
            cs@ == ip@,
            forall|j: int| 0 <= j < i ==> (#[trigger] list@[j]).ip@ != ip@,
    {
        if is_text(cs.as_slice(), list[i].ip.as_str()) {
            return Some(i);
        }
    }
    None
}

/// Where a device with this key is to be put in: behind all that do not come after it.
fn place_for(list: &Vec<NetDevice>, key: &Vec<u64>) -> (at: usize)
    requires
        forall|i: int, j: int|
            0 <= i < j < list@.len() ==> not_after(
                sort_key((#[trigger] list@[i]).ip@),
                sort_key((#[trigger] list@[j]).ip@),
            ),
    ensures
        at <= list@.len(),
        forall|i: int|
            0 <= i < at ==> not_after(sort_key((#[trigger] list@[i]).ip@), as_ints(key@)),
        forall|i: int|
            at <= i < list@.len() ==> not_after(as_ints(key@), sort_key((#[trigger] list@[i]).ip@)),
{
    let n: usize = list.len();
    let mut at: usize = 0;
    while at < n
        invariant
            n == list@.len(),
            at <= n,
            forall|i: int, j: int|
                0 <= i < j < list@.len() ==> not_after(
                    sort_key((#[trigger] list@[i]).ip@),
                    sort_key((#[trigger] list@[j]).ip@),
                ),
            forall|i: int|
                0 <= i < at ==> not_after(sort_key((#[trigger] list@[i]).ip@), as_ints(key@)),
        decreases n - at,
    {
        let other = key_of(list[at].ip.as_str());
        if !comes_not_after(&other, key) {
            proof {
                law_order_is_total(as_ints(key@), as_ints(other@));
                assert forall|i: int| at <= i < list@.len() implies not_after(
                    as_ints(key@),
                    sort_key((#[trigger] list@[i]).ip@),
                ) by {
                    if i > at {
                        law_order_is_transitive(
                            as_ints(key@),
                            sort_key(list@[at as int].ip@),
                            sort_key(list@[i].ip@),
                        );
                    }
                }
            }
            return at;
        }
        at = at + 1;
    }
    at
}

fn put_device(
    list: &mut Vec<NetDevice>,
    device: NetDevice,
    Ghost(known): Ghost<Map<Seq<char>, (Seq<char>, Seq<char>)>>,
)
    requires
        lists_devices(old(list)@, known),
        device.vendor@ == vendor_text(device.mac@),
    ensures
        lists_devices(
            final(list)@,
            known.insert(device.ip@, (device.mac@, device.hostname@)),
        ),
{
    let ghost before = list@;
    let ghost after = known.insert(device.ip@, (device.mac@, device.hostname@));
    let ghost ip = device.ip@;
    match find_ip(list, device.ip.as_str()) {
        Some(at) => {
            list.set(at, device);
            proof {
                assert forall|i: int| 0 <= i < list@.len() implies listed_as(
                    #[trigger] list@[i],
                    after,
                ) by {
                    assert(listed_as(before[i], known));
                    if i != at {
                        assert(before[i].ip@ != before[at as int].ip@);
                    }
                }
                assert forall|k: Seq<char>| #[trigger] after.dom().contains(k) implies exists|i: int|
                    0 <= i < list@.len() && list@[i].ip@ == k by {
                    if k == ip {
                        assert(list@[at as int].ip@ == k);
                    } else {
                        assert(known.dom().contains(k));
                        let i = choose|i: int| 0 <= i < before.len() && before[i].ip@ == k;
                        assert(list@[i].ip@ == k);
                    }
                }
                assert forall|i: int, j: int| 0 <= i < j < list@.len() implies (
                #[trigger] list@[i]).ip@ != (#[trigger] list@[j]).ip@ by {
                    assert(before[i].ip@ != before[j].ip@);
                }
                assert forall|i: int, j: int| 0 <= i < j < list@.len() implies not_after(
                    sort_key((#[trigger] list@[i]).ip@),
                    sort_key((#[trigger] list@[j]).ip@),
                ) by {
                    assert(not_after(sort_key(before[i].ip@), sort_key(before[j].ip@)));
                }
            }
        },
        None => {
            let key = key_of(device.ip.as_str());
            let at: usize = place_for(list, &key);
            list.insert(at, device);
            proof {
                let a = at as int;
                assert(list@ == before.insert(a, device));
                assert forall|i: int| 0 <= i < list@.len() implies listed_as(
                    #[trigger] list@[i],
                    after,
                ) by {
                    if i < a {
                        assert(list@[i] == before[i]);
                        assert(listed_as(before[i], known));
                    } else if i > a {
                        assert(list@[i] == before[i - 1]);
                        assert(listed_as(before[i - 1], known));
                    }
                }
                assert forall|k: Seq<char>| #[trigger] after.dom().contains(k) implies exists|i: int|
                    0 <= i < list@.len() && list@[i].ip@ == k by {
                    if k == ip {
                        assert(list@[a].ip@ == k);
                    } else {
                        assert(known.dom().contains(k));
                        let i = choose|i: int| 0 <= i < before.len() && before[i].ip@ == k;
                        if i < a {
                            assert(list@[i].ip@ == k);
                        } else {
                            assert(list@[i + 1].ip@ == k);
                        }
                    }
                }
                assert forall|i: int, j: int| 0 <= i < j < list@.len() implies (
                #[trigger] list@[i]).ip@ != (#[trigger] list@[j]).ip@ by {
                    let x = if i < a { i } else { i - 1 };
                    let y = if j < a { j } else { j - 1 };
                    if i != a && j != a {
                        assert(before[x].ip@ != before[y].ip@);
                    } else if i == a {
                        assert(before[y].ip@ != ip);
                    } else {
                        assert(before[x].ip@ != ip);
                    }
                }
                assert forall|i: int, j: int| 0 <= i < j < list@.len() implies not_after(
                    sort_key((#[trigger] list@[i]).ip@),
                    sort_key((#[trigger] list@[j]).ip@),
                ) by {
                    let x = if i < a { i } else { i - 1 };
                    let y = if j < a { j } else { j - 1 };
                    if i != a && j != a {
                        assert(not_after(sort_key(before[x].ip@), sort_key(before[y].ip@)));
                    } else if i == a {
                        assert(not_after(sort_key(ip), sort_key(before[y].ip@)));
                    } else {
                        assert(not_after(sort_key(before[x].ip@), sort_key(ip)));
                    }
                }
            }
        },
    }
}

/// The devices in the entries of the ARP table, each address once, sorted by address.
pub fn scan(entries: &Vec<ArpEntry>) -> (out: Vec<NetDevice>)
    ensures
        lists_devices(out@, devices_in(entries@)),
{
    let n: usize = entries.len();
    let mut out: Vec<NetDevice> = Vec::new();
    for i in 0..n
        invariant
            n == entries@.len(),
            lists_devices(out@, devices_in(entries@.take(i as int))),
    {
        assert(entries@.take(i + 1).drop_last() =~= entries@.take(i as int));
        assert(entries@.take(i + 1).last() == entries@[i as int]);
        let entry = &entries[i];
        if is_device(entry.ip.as_str(), entry.mac.as_str()) {
            let device = NetDevice {
                ip: entry.ip.as_str().to_owned(),
                mac: entry.mac.as_str().to_owned(),
                vendor: vendor_for_mac(entry.mac.as_str()),
                hostname: entry.hostname.as_str().to_owned(),
            };
            let ghost known = devices_in(entries@.take(i as int));
            put_device(&mut out, device, Ghost(known));
        }
    }
    assert(entries@.take(n as int) =~= entries@);
    out
}

// ---- Laws of the scan ------------------------------------------------------

/// Of a hardware address its hexadecimal digits count, in their order and in upper case; what
/// separates them does not.
pub proof fn law_hex_digits_are_kept_one_by_one(a: Seq<char>, b: Seq<char>, c: char)
    ensures
        hex_in(a + b) == hex_in(a) + hex_in(b),
        ('0' <= c <= '9') || ('A' <= c <= 'F') ==> hex_in(seq![c]) == seq![c],
        'a' <= c <= 'f' ==> hex_in(seq![c]).len() == 1 && hex_in(seq![c])[0] as int == c as int
            - 'a' as int + 'A' as int,
        !('0' <= c <= '9') && !('A' <= c <= 'F') && !('a' <= c <= 'f') ==> hex_in(seq![c])
            == Seq::<char>::empty(),
        hex_in(Seq::<char>::empty()) == Seq::<char>::empty(),
    decreases b.len(),
{
    let one = seq![c];
    assert(one.drop_last() =~= Seq::empty());
    reveal_with_fuel(hex_in, 2);
    if hex_digit(c) {
        assert(hex_in(one) =~= seq![upper_hex(c)]);
    }
    if b.len() == 0 {
        assert(a + b =~= a);
        assert(hex_in(a) + hex_in(b) =~= hex_in(a));
    } else {
        law_hex_digits_are_kept_one_by_one(a, b.drop_last(), c);
        assert((a + b).drop_last() =~= a + b.drop_last());
        assert((a + b).last() == b.last());
        assert(hex_in(a + b) =~= hex_in(a) + hex_in(b));
    }
}

/// The vendor goes by the first six digits of a hardware address: what follows them, and how
/// the digits are written, makes no difference. An address with fewer digits has none that is
/// known.
pub proof fn law_vendors_go_by_the_first_six_digits(mac: Seq<char>, other: Seq<char>)
    ensures
        hex_in(mac).len() >= 6 && hex_in(other).len() >= 6 && hex_in(mac).take(6) == hex_in(
            other,
        ).take(6) ==> vendor_text(mac) == vendor_text(other),
        hex_in(mac).len() < 6 ==> vendor_text(mac) == "Desconocido"@,
        hex_in(mac).len() >= 6 ==> vendor_text(mac) == vendor_of_prefix(hex_in(mac).take(6)),
{
}

/// The prefixes that belong to each vendor, and no vendor has another.
pub proof fn law_prefixes_have_their_vendor(prefix: Seq<char>)
    ensures
        prefix == "F4F5D8"@ || prefix == "3C5AB4"@ || prefix == "001A11"@
            ==> vendor_of_prefix(prefix) == "Google"@,
        prefix == "A4772E"@ || prefix == "F0D1A9"@ || prefix == "AC87A3"@
            || prefix == "00179A"@
            ==> vendor_of_prefix(prefix) == "Apple"@,
        prefix == "341298"@ || prefix == "8C7967"@ || prefix == "A0C589"@
            ==> vendor_of_prefix(prefix) == "Samsung"@,
        prefix == "B827EB"@ || prefix == "DCA632"@ ==> vendor_of_prefix(prefix) == "Raspberry Pi"@,
        prefix == "00E04C"@ ==> vendor_of_prefix(prefix) == "Realtek"@,
        prefix == "F81A67"@ || prefix == "50C7BF"@ || prefix == "EC086B"@
            ==> vendor_of_prefix(prefix) == "TP-Link"@,
        prefix == "1CFAAA"@ || prefix == "00259E"@ ==> vendor_of_prefix(prefix) == "Huawei"@,
        prefix == "A85E45"@ || prefix == "FCA183"@ ==> vendor_of_prefix(prefix) == "Amazon"@,
        prefix == "D8BB2C"@ || prefix == "00155D"@ ==> vendor_of_prefix(prefix) == "Microsoft"@,
        prefix == "3496D7"@ || prefix == "2C56DC"@ ==> vendor_of_prefix(prefix) == "ASUS"@,
        prefix == "C88D83"@ || prefix == "64CC2E"@ ==> vendor_of_prefix(prefix) == "Xiaomi"@,
        prefix != "F4F5D8"@ && prefix != "3C5AB4"@ && prefix != "001A11"@
            && prefix != "A4772E"@ && prefix != "F0D1A9"@ && prefix != "AC87A3"@
            && prefix != "00179A"@ && prefix != "341298"@ && prefix != "8C7967"@
            && prefix != "A0C589"@ && prefix != "B827EB"@ && prefix != "DCA632"@
            && prefix != "00E04C"@ && prefix != "F81A67"@ && prefix != "50C7BF"@
            && prefix != "EC086B"@ && prefix != "1CFAAA"@ && prefix != "00259E"@
            && prefix != "A85E45"@ && prefix != "FCA183"@ && prefix != "D8BB2C"@
            && prefix != "00155D"@ && prefix != "3496D7"@ && prefix != "2C56DC"@
            && prefix != "C88D83"@ && prefix != "64CC2E"@
            ==> vendor_of_prefix(prefix) == "Desconocido"@,
{
    reveal_strlit("F4F5D8");
    assert("F4F5D8"@[0] == 'F' && "F4F5D8"@[1] == '4' && "F4F5D8"@[2] == 'F'
        && "F4F5D8"@[3] == '5' && "F4F5D8"@[4] == 'D' && "F4F5D8"@[5] == '8');
    reveal_strlit("3C5AB4");
    assert("3C5AB4"@[0] == '3' && "3C5AB4"@[1] == 'C' && "3C5AB4"@[2] == '5'
        && "3C5AB4"@[3] == 'A' && "3C5AB4"@[4] == 'B' && "3C5AB4"@[5] == '4');
    reveal_strlit("001A11");
    assert("001A11"@[0] == '0' && "001A11"@[1] == '0' && "001A11"@[2] == '1'
        && "001A11"@[3] == 'A' && "001A11"@[4] == '1' && "001A11"@[5] == '1');
    reveal_strlit("A4772E");
    assert("A4772E"@[0] == 'A' && "A4772E"@[1] == '4' && "A4772E"@[2] == '7'
        && "A4772E"@[3] == '7' && "A4772E"@[4] == '2' && "A4772E"@[5] == 'E');
    reveal_strlit("F0D1A9");
    assert("F0D1A9"@[0] == 'F' && "F0D1A9"@[1] == '0' && "F0D1A9"@[2] == 'D'
        && "F0D1A9"@[3] == '1' && "F0D1A9"@[4] == 'A' && "F0D1A9"@[5] == '9');
    reveal_strlit("AC87A3");
    assert("AC87A3"@[0] == 'A' && "AC87A3"@[1] == 'C' && "AC87A3"@[2] == '8'
        && "AC87A3"@[3] == '7' && "AC87A3"@[4] == 'A' && "AC87A3"@[5] == '3');
    reveal_strlit("00179A");
    assert("00179A"@[0] == '0' && "00179A"@[1] == '0' && "00179A"@[2] == '1'
        && "00179A"@[3] == '7' && "00179A"@[4] == '9' && "00179A"@[5] == 'A');
    reveal_strlit("341298");
    assert("341298"@[0] == '3' && "341298"@[1] == '4' && "341298"@[2] == '1'
        && "341298"@[3] == '2' && "341298"@[4] == '9' && "341298"@[5] == '8');
    reveal_strlit("8C7967");
    assert("8C7967"@[0] == '8' && "8C7967"@[1] == 'C' && "8C7967"@[2] == '7'
        && "8C7967"@[3] == '9' && "8C7967"@[4] == '6' && "8C7967"@[5] == '7');
    reveal_strlit("A0C589");
    assert("A0C589"@[0] == 'A' && "A0C589"@[1] == '0' && "A0C589"@[2] == 'C'
        && "A0C589"@[3] == '5' && "A0C589"@[4] == '8' && "A0C589"@[5] == '9');
    reveal_strlit("B827EB");
    assert("B827EB"@[0] == 'B' && "B827EB"@[1] == '8' && "B827EB"@[2] == '2'
        && "B827EB"@[3] == '7' && "B827EB"@[4] == 'E' && "B827EB"@[5] == 'B');
    reveal_strlit("DCA632");
    assert("DCA632"@[0] == 'D' && "DCA632"@[1] == 'C' && "DCA632"@[2] == 'A'
        && "DCA632"@[3] == '6' && "DCA632"@[4] == '3' && "DCA632"@[5] == '2');
    reveal_strlit("00E04C");
    assert("00E04C"@[0] == '0' && "00E04C"@[1] == '0' && "00E04C"@[2] == 'E'
        && "00E04C"@[3] == '0' && "00E04C"@[4] == '4' && "00E04C"@[5] == 'C');
    reveal_strlit("F81A67");
    assert("F81A67"@[0] == 'F' && "F81A67"@[1] == '8' && "F81A67"@[2] == '1'
        && "F81A67"@[3] == 'A' && "F81A67"@[4] == '6' && "F81A67"@[5] == '7');
    reveal_strlit("50C7BF");
    assert("50C7BF"@[0] == '5' && "50C7BF"@[1] == '0' && "50C7BF"@[2] == 'C'
        && "50C7BF"@[3] == '7' && "50C7BF"@[4] == 'B' && "50C7BF"@[5] == 'F');
    reveal_strlit("EC086B");
    assert("EC086B"@[0] == 'E' && "EC086B"@[1] == 'C' && "EC086B"@[2] == '0'
        && "EC086B"@[3] == '8' && "EC086B"@[4] == '6' && "EC086B"@[5] == 'B');
    reveal_strlit("1CFAAA");
    assert("1CFAAA"@[0] == '1' && "1CFAAA"@[1] == 'C' && "1CFAAA"@[2] == 'F'
        && "1CFAAA"@[3] == 'A' && "1CFAAA"@[4] == 'A' && "1CFAAA"@[5] == 'A');
    reveal_strlit("00259E");
    assert("00259E"@[0] == '0' && "00259E"@[1] == '0' && "00259E"@[2] == '2'
        && "00259E"@[3] == '5' && "00259E"@[4] == '9' && "00259E"@[5] == 'E');
    reveal_strlit("A85E45");
    assert("A85E45"@[0] == 'A' && "A85E45"@[1] == '8' && "A85E45"@[2] == '5'
        && "A85E45"@[3] == 'E' && "A85E45"@[4] == '4' && "A85E45"@[5] == '5');
    reveal_strlit("FCA183");
    assert("FCA183"@[0] == 'F' && "FCA183"@[1] == 'C' && "FCA183"@[2] == 'A'
        && "FCA183"@[3] == '1' && "FCA183"@[4] == '8' && "FCA183"@[5] == '3');
    reveal_strlit("D8BB2C");
    assert("D8BB2C"@[0] == 'D' && "D8BB2C"@[1] == '8' && "D8BB2C"@[2] == 'B'
        && "D8BB2C"@[3] == 'B' && "D8BB2C"@[4] == '2' && "D8BB2C"@[5] == 'C');
    reveal_strlit("00155D");
    assert("00155D"@[0] == '0' && "00155D"@[1] == '0' && "00155D"@[2] == '1'
        && "00155D"@[3] == '5' && "00155D"@[4] == '5' && "00155D"@[5] == 'D');
    reveal_strlit("3496D7");
    assert("3496D7"@[0] == '3' && "3496D7"@[1] == '4' && "3496D7"@[2] == '9'
        && "3496D7"@[3] == '6' && "3496D7"@[4] == 'D' && "3496D7"@[5] == '7');
    reveal_strlit("2C56DC");
    assert("2C56DC"@[0] == '2' && "2C56DC"@[1] == 'C' && "2C56DC"@[2] == '5'
        && "2C56DC"@[3] == '6' && "2C56DC"@[4] == 'D' && "2C56DC"@[5] == 'C');
    reveal_strlit("C88D83");
    assert("C88D83"@[0] == 'C' && "C88D83"@[1] == '8' && "C88D83"@[2] == '8'
        && "C88D83"@[3] == 'D' && "C88D83"@[4] == '8' && "C88D83"@[5] == '3');
    reveal_strlit("64CC2E");
    assert("64CC2E"@[0] == '6' && "64CC2E"@[1] == '4' && "64CC2E"@[2] == 'C'
        && "64CC2E"@[3] == 'C' && "64CC2E"@[4] == '2' && "64CC2E"@[5] == 'E');
}

/// A line of the ARP table of Windows: the first word is the address, and the second the
/// hardware address, if it has a hyphen. What follows does not count, nor how far the words
/// are apart.
pub proof fn law_windows_lines_are_read(
    gap: Seq<char>,
    ip: Seq<char>,
    between: Seq<char>,
    mac: Seq<char>,
    rest: Seq<char>,
)
    requires
        forall|j: int| 0 <= j < gap.len() ==> crate::text::white(#[trigger] gap[j]),
        forall|j: int| 0 <= j < between.len() ==> crate::text::white(#[trigger] between[j]),
        forall|j: int| 0 <= j < ip.len() ==> !crate::text::white(#[trigger] ip[j]),
        forall|j: int| 0 <= j < mac.len() ==> !crate::text::white(#[trigger] mac[j]),
        ip.len() > 0,
        between.len() > 0,
        mac.len() > 0,
        rest.len() > 0 ==> crate::text::white(rest[0]),
    ensures
        windows_entry(gap + ip + (between + mac + rest)) == if mac.contains('-') {
            Some((ip, mac))
        } else {
            None
        },
        windows_entry(gap + ip) is None,
        windows_entry(gap) is None,
{
    let behind = between + mac + rest;
    assert(behind[0] == between[0]);
    crate::text::law_words_are_separated_by_white_space(gap, ip, behind);
    crate::text::law_words_are_separated_by_white_space(between, mac, rest);
    let none = Seq::<char>::empty();
    crate::text::law_words_are_separated_by_white_space(gap, ip, none);
    crate::text::law_words_are_separated_by_white_space(none, ip, none);
    assert(gap + ip + none =~= gap + ip);
    let w = words_of(gap + ip + behind);
    assert(w[0] == ip);
    assert(w[1] == mac);
}

/// A line of the ARP table of other systems without brackets, or without " at ", has no entry.
pub proof fn law_other_lines_have_no_entry(line: Seq<char>)
    requires
        !has_part(line, "("@) || !has_part(line, ")"@) || !has_part(line, " at "@),
    ensures
        unix_entry(line) is None,
{
    lemma_first_from(line, "("@, 0);
    lemma_first_from(line, ")"@, 0);
    lemma_first_from(line, " at "@, 0);
}

/// Each line of the table is read for itself: the entries of two rows of lines are those of
/// the one and then those of the other.
pub proof fn law_lines_are_read_one_by_one(
    windows: bool,
    a: Seq<Seq<char>>,
    b: Seq<Seq<char>>,
    line: Seq<char>,
)
    ensures
        entries_in(windows, a + b) == entries_in(windows, a) + entries_in(windows, b),
        entries_in(windows, Seq::empty()) == Seq::<(Seq<char>, Seq<char>)>::empty(),
        ({
            let entry = if windows {
                windows_entry(line)
            } else {
                unix_entry(line)
            };
            entries_in(windows, seq![line]) == match entry {
                Some(e) => seq![e],
                None => Seq::empty(),
            }
        }),
    decreases b.len(),
{
    let one = seq![line];
    assert(one.drop_last() =~= Seq::empty());
    reveal_with_fuel(entries_in, 2);
    let entry = if windows {
        windows_entry(line)
    } else {
        unix_entry(line)
    };
    if let Some(e) = entry {
        assert(entries_in(windows, one) =~= seq![e]);
    }
    if b.len() == 0 {
        assert(a + b =~= a);
        assert(entries_in(windows, a) + entries_in(windows, b) =~= entries_in(windows, a));
    } else {
        law_lines_are_read_one_by_one(windows, a, b.drop_last(), line);
        assert((a + b).drop_last() =~= a + b.drop_last());
        assert((a + b).last() == b.last());
        assert(entries_in(windows, a + b) =~= entries_in(windows, a) + entries_in(windows, b));
    }
}

/// An entry is kept where its own flag is set, and the order stays.
pub proof fn law_flags_keep_their_entries(
    entries: Seq<(Seq<char>, Seq<char>)>,
    flags: Seq<bool>,
    entry: (Seq<char>, Seq<char>),
)
    requires
        entries.len() == flags.len(),
    ensures
        flagged(entries.push(entry), flags.push(true)) == flagged(entries, flags).push(entry),
        flagged(entries.push(entry), flags.push(false)) == flagged(entries, flags),
        flagged(Seq::empty(), Seq::empty()) == Seq::<(Seq<char>, Seq<char>)>::empty(),
{
    assert(entries.push(entry).drop_last() =~= entries);
    assert(flags.push(true).drop_last() =~= flags);
    assert(flags.push(false).drop_last() =~= flags);
}

/// The name of a device is the first word of the first line that says that it is a unique name
/// of a workstation; where there is none, the name is empty.
pub proof fn law_the_first_unique_name_counts(list: Seq<Seq<char>>, k: int)
    requires
        0 <= k <= list.len(),
        forall|i: int|
            0 <= i < k ==> !(has_part(trimmed(#[trigger] list[i]), "<00>"@) && has_part(
                trimmed(list[i]),
                "UNIQUE"@,
            ) && words_of(trimmed(list[i])).len() > 0),
        k < list.len() ==> has_part(trimmed(list[k]), "<00>"@) && has_part(
            trimmed(list[k]),
            "UNIQUE"@,
        ) && words_of(trimmed(list[k])).len() > 0,
    ensures
        netbios_in(list) == if k < list.len() {
            words_of(trimmed(list[k]))[0]
        } else {
            Seq::empty()
        },
    decreases list.len(),
{
    if list.len() > 0 && k > 0 {
        assert(!names_device(list[0]));
        let tail = list.drop_first();
        assert forall|i: int| 0 <= i < k - 1 implies !(has_part(
            trimmed(#[trigger] tail[i]),
            "<00>"@,
        ) && has_part(trimmed(tail[i]), "UNIQUE"@) && words_of(trimmed(tail[i])).len() > 0) by {
            assert(tail[i] == list[i + 1]);
        }
        law_the_first_unique_name_counts(tail, k - 1);
    }
}

/// Addresses that end with 255, the hardware addresses of multicast and that of broadcast are
/// no devices; all others are.
pub proof fn law_broadcasts_are_no_devices(ip: Seq<char>, mac: Seq<char>)
    ensures
        !stands_for_device(ip + ".255"@, mac),
        !stands_for_device(ip, "01-00-5e"@ + mac),
        !stands_for_device(ip, "ff-ff-ff-ff-ff-ff"@),
        !has_suffix(ip, ".255"@) && !has_prefix(mac, "01-00-5e"@) && mac != "ff-ff-ff-ff-ff-ff"@
            ==> stands_for_device(ip, mac),
{
    crate::text::law_beginnings_and_ends_agree(ip, ".255"@, ip);
    crate::text::law_beginnings_and_ends_agree(ip, "01-00-5e"@, mac);
}

/// A device is known under each address that an entry for a device has, and under no other.
pub proof fn law_devices_are_known_by_their_entries(entries: Seq<ArpEntry>, ip: Seq<char>)
    ensures
        devices_in(entries).dom().contains(ip) <==> exists|i: int|
            0 <= i < entries.len() && (#[trigger] entries[i]).ip@ == ip && stands_for_device(
                ip,
                entries[i].mac@,
            ),
    decreases entries.len(),
{
    if entries.len() > 0 {
        let front = entries.drop_last();
        let last = entries[entries.len() - 1];
        law_devices_are_known_by_their_entries(front, ip);
        if devices_in(front).dom().contains(ip) {
            let i = choose|i: int|
                0 <= i < front.len() && (#[trigger] front[i]).ip@ == ip && stands_for_device(
                    ip,
                    front[i].mac@,
                );
            assert(entries[i] == front[i]);
        }
        if exists|i: int|
            0 <= i < entries.len() && (#[trigger] entries[i]).ip@ == ip && stands_for_device(
                ip,
                entries[i].mac@,
            ) {
            let i = choose|i: int|
                0 <= i < entries.len() && (#[trigger] entries[i]).ip@ == ip && stands_for_device(
                    ip,
                    entries[i].mac@,
                );
            if i < front.len() {
                assert(front[i] == entries[i]);
            }
        }
    }
}

/// Of the entries with the same address the last one for a device counts: what it says is what
/// is known of the device.
pub proof fn law_the_last_entry_counts(before: Seq<ArpEntry>, entry: ArpEntry, after: Seq<ArpEntry>)
    requires
        stands_for_device(entry.ip@, entry.mac@),
        forall|j: int|
            0 <= j < after.len() ==> (#[trigger] after[j]).ip@ != entry.ip@ || !stands_for_device(
                entry.ip@,
                after[j].mac@,
            ),
    ensures
        devices_in(before.push(entry) + after).dom().contains(entry.ip@),
        devices_in(before.push(entry) + after)[entry.ip@] == (entry.mac@, entry.hostname@),
    decreases after.len(),
{
    let all = before.push(entry) + after;
    if after.len() == 0 {
        assert(all =~= before.push(entry));
        assert(all.drop_last() =~= before);
    } else {
        let front = after.drop_last();
        assert forall|j: int| 0 <= j < front.len() implies (#[trigger] front[j]).ip@ != entry.ip@
            || !stands_for_device(entry.ip@, front[j].mac@) by {
            assert(front[j] == after[j]);
        }
        law_the_last_entry_counts(before, entry, front);
        assert(all.drop_last() =~= before.push(entry) + front);
        assert(all.last() == after[after.len() - 1]);
    }
}

/// An address of four numbers with dots between them is sorted by these numbers.
pub proof fn law_addresses_are_sorted_by_their_numbers(a: nat, b: nat, c: nat, d: nat)
    requires
        a <= u32::MAX,
        b <= u32::MAX,
        c <= u32::MAX,
        d <= u32::MAX,
    ensures
        ({
            let dot = seq!['.'];
            let ip = crate::text::decimal_text(a) + dot + (crate::text::decimal_text(b) + dot + (
            crate::text::decimal_text(c) + dot + crate::text::decimal_text(d)));
            sort_key(ip) == seq![a as int, b as int, c as int, d as int]
        }),
{
    let dot = seq!['.'];
    let ta = crate::text::decimal_text(a);
    let tb = crate::text::decimal_text(b);
    let tc = crate::text::decimal_text(c);
    let td = crate::text::decimal_text(d);
    lemma_no_dot(a);
    lemma_no_dot(b);
    lemma_no_dot(c);
    lemma_no_dot(d);
    crate::text::law_fields_end_at_separators(td, td, '.');
    crate::text::law_fields_end_at_separators(tc, td, '.');
    crate::text::law_fields_end_at_separators(tb, tc + dot + td, '.');
    crate::text::law_fields_end_at_separators(ta, tb + dot + (tc + dot + td), '.');
    let ip = ta + dot + (tb + dot + (tc + dot + td));
    let list = fields_of(ip, '.');
    assert(list =~= seq![ta, tb, tc, td]);
    assert(list.drop_last() =~= seq![ta, tb, tc]);
    assert(seq![ta, tb, tc].drop_last() =~= seq![ta, tb]);
    assert(seq![ta, tb].drop_last() =~= seq![ta]);
    assert(seq![ta].drop_last() =~= Seq::empty());
    reveal_with_fuel(numbers_in, 5);
    assert(numbers_in(list) =~= seq![a as int, b as int, c as int, d as int]);
}

proof fn lemma_no_dot(n: nat)
    requires
        n <= u32::MAX,
    ensures
        !crate::text::decimal_text(n).contains('.'),
        number_in(crate::text::decimal_text(n), u32::MAX as int) == Some(n as int),
{
    crate::text::law_decimal_reads_back(n, u32::MAX as int);
    let s = crate::text::decimal_text(n);
    if s.contains('.') {
        let i = choose|i: int| 0 <= i < s.len() && s[i] == '.';
        assert(crate::text::digit(s[i]));
    }
}

/// The first numbers in which two rows differ decide which comes first, and a row comes before
/// those that it starts.
pub proof fn law_the_first_difference_decides(
    same: Seq<int>,
    a: int,
    b: int,
    rest: Seq<int>,
    other: Seq<int>,
)
    ensures
        a < b ==> not_after(same + seq![a] + rest, same + seq![b] + other) && !not_after(
            same + seq![b] + other,
            same + seq![a] + rest,
        ),
        not_after(same, same + rest),
        rest.len() > 0 ==> !not_after(same + rest, same),
    decreases same.len(),
{
    let x = same + seq![a] + rest;
    let y = same + seq![b] + other;
    if same.len() == 0 {
        assert(x[0] == a && y[0] == b);
    } else {
        let tail = same.drop_first();
        law_the_first_difference_decides(tail, a, b, rest, other);
        assert(x.drop_first() =~= tail + seq![a] + rest);
        assert(y.drop_first() =~= tail + seq![b] + other);
        assert((same + rest).drop_first() =~= tail + rest);
        assert((same + rest)[0] == same[0]);
    }
}

/// What a list of the scan shows: each device that is known once, under its address and with
/// its hardware address, its name and the vendor of its hardware address, and in the order of
/// the addresses.
pub proof fn law_the_list_shows_each_device_once(
    list: Seq<NetDevice>,
    known: Map<Seq<char>, (Seq<char>, Seq<char>)>,
    i: int,
    j: int,
    ip: Seq<char>,
)
    requires
        lists_devices(list, known),
        0 <= i < j < list.len(),
    ensures
        known.dom().contains(list[i].ip@),
        known[list[i].ip@].0 == list[i].mac@,
        known[list[i].ip@].1 == list[i].hostname@,
        list[i].vendor@ == vendor_text(list[i].mac@),
        known.dom().contains(ip) ==> exists|k: int|
            0 <= k < list.len() && (#[trigger] list[k]).ip@ == ip,
        list[i].ip@ != list[j].ip@,
        sort_key(list[i].ip@) == sort_key(list[j].ip@) || !not_after(
            sort_key(list[j].ip@),
            sort_key(list[i].ip@),
        ),
{
    assert(listed_as(list[i], known));
    if not_after(sort_key(list[j].ip@), sort_key(list[i].ip@)) {
        law_order_is_antisymmetric(sort_key(list[i].ip@), sort_key(list[j].ip@));
    }
    if known.dom().contains(ip) {
        let k = choose|k: int| 0 <= k < list.len() && list[k].ip@ == ip;
        assert(list[k].ip@ == ip);
    }
}

/// A line of the ARP table of other systems as they print it, with a name, the address in
/// brackets and the hardware address behind " at ", gives this address and this hardware
/// address, whatever follows.
pub proof fn law_printed_lines_are_read(
    name: Seq<char>,
    ip: Seq<char>,
    mac: Seq<char>,
    rest: Seq<char>,
)
    requires
        forall|j: int|
            0 <= j < name.len() ==> #[trigger] name[j] != '(' && name[j] != ')' && name[j] != ' ',
        forall|j: int|
            0 <= j < ip.len() ==> #[trigger] ip[j] != '(' && ip[j] != ')' && ip[j] != ' ',
        forall|j: int| 0 <= j < mac.len() ==> !crate::text::white(#[trigger] mac[j]),
        mac.len() > 0,
        rest.len() > 0 ==> crate::text::white(rest[0]),
    ensures
        unix_entry(name + seq![' ', '('] + ip + seq![')', ' ', 'a', 't', ' '] + mac + rest) == Some(
            (ip, mac),
        ),
{
    reveal_strlit("(");
    reveal_strlit(")");
    reveal_strlit(" at ");
    let line = name + seq![' ', '('] + ip + seq![')', ' ', 'a', 't', ' '] + mac + rest;
    let open = name.len() as int + 1;
    let close = open + 1 + ip.len();
    let at = close + 1;
    assert(line[open] == '(');
    assert(line[close] == ')');
    assert forall|j: int| 0 <= j < open implies #[trigger] line[j] != '(' && line[j] != ')' by {
        if j < name.len() {
            assert(line[j] == name[j]);
        }
    }
    assert forall|j: int| open < j < close implies #[trigger] line[j] != ')' && line[j] != ' ' by {
        assert(line[j] == ip[j - open - 1]);
    }
    assert(line.subrange(open, open + 1) =~= "("@);
    assert(line.subrange(close, close + 1) =~= ")"@);
    assert(line.subrange(at, at + 4) =~= " at "@);
    assert forall|j: int| 0 <= j < open implies !occurs_at(line, "("@, j) by {
        if occurs_at(line, "("@, j) {
            assert(line.subrange(j, j + 1)[0] == line[j]);
        }
    }
    assert forall|j: int| 0 <= j < close implies !occurs_at(line, ")"@, j) by {
        if occurs_at(line, ")"@, j) {
            assert(line.subrange(j, j + 1)[0] == line[j]);
        }
    }
    assert forall|j: int| 0 <= j < at implies !occurs_at(line, " at "@, j) by {
        if occurs_at(line, " at "@, j) {
            let part = line.subrange(j, j + 4);
            assert(part[0] == line[j]);
            assert(part[1] == line[j + 1]);
            if j < name.len() {
                assert(line[j] == name[j]);
            } else if j == name.len() {
                assert(line[j + 1] == '(');
            }
        }
    }
    lemma_first_is(line, "("@, open);
    lemma_first_is(line, ")"@, close);
    lemma_first_is(line, " at "@, at);
    assert(line.subrange(open + 1, close) =~= ip);
    let none = Seq::<char>::empty();
    assert(line.skip(at + 4) =~= none + mac + rest);
    crate::text::law_words_are_separated_by_white_space(none, mac, rest);
}

proof fn lemma_first_is(s: Seq<char>, p: Seq<char>, k: int)
    requires
        occurs_at(s, p, k),
        forall|j: int| 0 <= j < k ==> !occurs_at(s, p, j),
    ensures
        first_of(s, p) == Some(k),
{
    lemma_first_from(s, p, 0);
    if let Some(i) = first_of(s, p) {
        if i < k {
            assert(!occurs_at(s, p, i));
        }
    }
}

/// Each field of an address counts for itself, and one that is no number does not count.
pub proof fn law_fields_count_one_by_one(a: Seq<Seq<char>>, b: Seq<Seq<char>>, field: Seq<char>)
    ensures
        numbers_in(a + b) == numbers_in(a) + numbers_in(b),
        numbers_in(seq![field]) == match number_in(field, 0xFFFF_FFFF) {
            Some(n) => seq![n],
            None => Seq::empty(),
        },
    decreases b.len(),
{
    let one = seq![field];
    assert(one.drop_last() =~= Seq::empty());
    reveal_with_fuel(numbers_in, 2);
    if let Some(n) = number_in(field, 0xFFFF_FFFF) {
        assert(numbers_in(one) =~= seq![n]);
    }
    if b.len() == 0 {
        assert(a + b =~= a);
        assert(numbers_in(a) + numbers_in(b) =~= numbers_in(a));
    } else {
        law_fields_count_one_by_one(a, b.drop_last(), field);
        assert((a + b).drop_last() =~= a + b.drop_last());
        assert((a + b).last() == b.last());
        assert(numbers_in(a + b) =~= numbers_in(a) + numbers_in(b));
    }
}

/// The brackets of a text are in order where in each line that has both the first one that
/// opens stands before the first one that closes.
pub proof fn law_brackets_are_looked_at_line_by_line(
    a: Seq<Seq<char>>,
    line: Seq<char>,
)
    ensures
        all_in_order(Seq::empty()),
        all_in_order(a.push(line)) <==> all_in_order(a) && all_in_order(seq![line]),
        first_of(line, "("@) is None || first_of(line, ")"@) is None ==> all_in_order(seq![line]),
        first_of(line, "("@) is Some && first_of(line, ")"@) is Some ==> (all_in_order(seq![line])
            <==> first_of(line, "("@)->0 < first_of(line, ")"@)->0),
{
    let one = seq![line];
    let all = a.push(line);
    assert(one[0] == line);
    if all_in_order(all) {
        assert forall|i: int| 0 <= i < a.len() implies brackets_in_order(#[trigger] a[i]) by {
            assert(all[i] == a[i]);
        }
        assert(brackets_in_order(all[a.len() as int]));
    }
    if all_in_order(one) {
        assert(brackets_in_order(one[0]));
    }
}

} // verus!
