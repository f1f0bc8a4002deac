//! Remote input: reading the events that a viewer sends, and deciding what is injected
//! for them on each platform.
use crate::json::{
    json_bool, json_bool_at, json_i64, json_i64_at, json_str, json_str_at, json_u64, json_u64_at,
};
use crate::text::{
    chars_of, has_prefix, is_text, number_in, parse_number, same_str, starts_with,
};
use vstd::prelude::*;

verus! {

// ---- Events ----------------------------------------------------------------

/// An input event.
pub enum InputEvent {
    /// The pointer moves. The position is a pair of fractions of the screen.
    Move,
    /// A button of the mouse goes down or up.
    Button { button: String, down: bool },
    /// The wheel turns.
    Scroll { delta: i32 },
    /// A key goes down or up: its virtual key code and the name of its place on the
    /// keyboard.
    Key { vk: u16, code: String, down: bool },
    /// Text is typed.
    Text { text: String },
    /// Nothing is to be done.
    Nothing,
}

/// The fields of an event as they were found, where they were.
pub struct InputFields {
    pub t: Option<String>,
    pub button: Option<String>,
    pub down: Option<bool>,
    pub delta: Option<i64>,
    pub vk: Option<u64>,
    pub code: Option<String>,
    pub text: Option<String>,
}

/// Contents of the fields of an event.
pub struct FieldValues {
    pub t: Option<Seq<char>>,
    pub button: Option<Seq<char>>,
    pub down: Option<bool>,
    pub delta: Option<i64>,
    pub vk: Option<u64>,
    pub code: Option<Seq<char>>,
    pub text: Option<Seq<char>>,
}

/// Contents of a string that may be missing.
pub open spec fn text_or_none(s: Option<String>) -> Option<Seq<char>> {
    match s {
        Some(s) => Some(s@),
        None => None,
    }
}

impl View for InputFields {
    type V = FieldValues;

    open spec fn view(&self) -> FieldValues {
        FieldValues {
            t: text_or_none(self.t),
            button: text_or_none(self.button),
            down: self.down,
            delta: self.delta,
            vk: self.vk,
            code: text_or_none(self.code),
            text: text_or_none(self.text),
        }
    }
}

/// The fields in the JSON object that some bytes hold.
pub open spec fn fields_in(payload: Seq<u8>) -> FieldValues {
    FieldValues {
        t: json_str_at(payload, "t"@),
        button: json_str_at(payload, "button"@),
        down: json_bool_at(payload, "down"@),
        delta: json_i64_at(payload, "delta"@),
        vk: json_u64_at(payload, "vk"@),
        code: json_str_at(payload, "code"@),
        text: json_str_at(payload, "text"@),
    }
}

/// The lower 32 bits of a number, as a signed number.
pub open spec fn low_signed_32(n: int) -> int {
    (n + 0x8000_0000) % 0x1_0000_0000 - 0x8000_0000
}

/// Whether an event is what its fields say. A missing button is the left one; any
/// other field that is missing is false, zero or empty, but typed text has to be there.
pub open spec fn event_of(fields: FieldValues, event: InputEvent) -> bool {
    let t = if let Some(t) = fields.t {
        t
    } else {
        ""@
    };
    let down = fields.down == Some(true);
    if t == "move"@ {
        event is Move
    } else if t == "btn"@ {
        &&& event is Button
        &&& event->button@ == if let Some(b) = fields.button {
            b
        } else {
            "left"@
        }
        &&& event->Button_down == down
    } else if t == "scroll"@ {
        &&& event is Scroll
        &&& event->delta == low_signed_32(
            if let Some(d) = fields.delta {
                d as int
            } else {
                0
            },
        )
    } else if t == "key"@ {
        &&& event is Key
        &&& event->vk == if let Some(v) = fields.vk {
            v as int % 0x1_0000
        } else {
            0
        }
        &&& event->code@ == if let Some(c) = fields.code {
            c
        } else {
            ""@
        }
        &&& event->Key_down == down
    } else if t == "text"@ && fields.text is Some {
        event is Text && event->text@ == fields.text->0
    } else {
        event is Nothing
    }
}

fn is_word(found: &Option<String>, word: &str) -> (out: bool)
    requires
        word@.len() > 0,
    ensures
        out == ((if let Some(t) = text_or_none(*found) {
            t
        } else {
            ""@
        }) == word@),
{
    proof {
        reveal_strlit("");
    }
    match found {
        Some(s) => same_str(s.as_str(), word),
        None => false,
    }
}

fn or_default(found: Option<String>, default: &str) -> (out: String)
    ensures
        out@ == if let Some(s) = text_or_none(found) {
            s
        } else {
            default@
        },
{
    match found {
        Some(s) => s,
        None => default.to_owned(),
    }
}

fn low_i32(n: i64) -> (out: i32)
    ensures
        out == low_signed_32(n as int),
{
    let wide: i128 = n as i128 + 0x8000_0000_8000_0000;
    let low: i128 = wide % 0x1_0000_0000;
    (low - 0x8000_0000) as i32
}

/// The event that the fields stand for.
pub fn decode_input(fields: InputFields) -> (event: InputEvent)
    ensures
        event_of(fields@, event),
{
    proof {
        reveal_strlit("move");
        reveal_strlit("btn");
        reveal_strlit("scroll");
        reveal_strlit("key");
        reveal_strlit("text");
    }
    let down = match fields.down {
        Some(d) => d,
        None => false,
    };
    if is_word(&fields.t, "move") {
        InputEvent::Move
    } else if is_word(&fields.t, "btn") {
        InputEvent::Button { button: or_default(fields.button, "left"), down }
    } else if is_word(&fields.t, "scroll") {
        let delta: i64 = match fields.delta {
            Some(d) => d,
            None => 0,
        };
        InputEvent::Scroll { delta: low_i32(delta) }
    } else if is_word(&fields.t, "key") {
        let vk: u64 = match fields.vk {
            Some(v) => v,
            None => 0,
        };
        InputEvent::Key { vk: (vk % 0x1_0000) as u16, code: or_default(fields.code, ""), down }
    } else if is_word(&fields.t, "text") {
        match fields.text {
            Some(text) => InputEvent::Text { text },
            None => InputEvent::Nothing,
        }
    } else {
        InputEvent::Nothing
    }
}

/// Reads the event that a message's payload holds.
pub fn read_input(payload: &[u8]) -> (event: InputEvent)
    ensures
        event_of(fields_in(payload@), event),
{
    let fields = InputFields {
        t: json_str(payload, "t"),
        button: json_str(payload, "button"),
        down: json_bool(payload, "down"),
        delta: json_i64(payload, "delta"),
        vk: json_u64(payload, "vk"),
        code: json_str(payload, "code"),
        text: json_str(payload, "text"),
    };
    assert(fields@ == fields_in(payload@));
    decode_input(fields)
}

// ---- What is injected ------------------------------------------------------

/// The ways to inject input.
#[derive(Clone, Copy, PartialEq, Eq, Debug, Structural)]
pub enum Platform {
    Windows,
    MacOs,
    /// Input cannot be injected.
    Other,
}

/// A button of the mouse.
#[derive(Clone, Copy, PartialEq, Eq, Debug, Structural)]
pub enum MouseButton {
    Left,
    Right,
    Middle,
}

/// One call of the system's input interface.
#[derive(Clone, Copy, PartialEq, Eq, Debug, Structural)]
pub enum Injection {
    /// Move the pointer to the event's position.
    MovePointer,
    /// Press or release a button of the mouse.
    Mouse { button: MouseButton, down: bool },
    /// Turn the wheel by this amount, as an unsigned word in two's complement.
    Wheel { data: u32 },
    /// Scroll by this many lines.
    Lines { lines: i32 },
    /// Press or release a virtual key.
    VirtualKey { vk: u16, extended: bool, up: bool },
    /// Press or release the key of a UTF-16 code unit.
    Unicode { unit: u16, up: bool },
    /// Press or release the key with this key code.
    KeyCode { code: u16, down: bool },
    /// Type the event's text at once.
    WholeText,
}

/// The button that a name stands for.
pub open spec fn button_named(name: Seq<char>) -> Option<MouseButton> {
    if name == "left"@ {
        Some(MouseButton::Left)
    } else if name == "right"@ {
        Some(MouseButton::Right)
    } else if name == "middle"@ {
        Some(MouseButton::Middle)
    } else {
        None
    }
}

/// What pressing or releasing a button of the mouse takes. A name that stands for no
/// button is an error, where input can be injected.
pub fn mouse_button(platform: Platform, button: &str, down: bool) -> (out: Result<
    Option<Injection>,
    String,
>)
    ensures
        platform is Other ==> out == Ok::<Option<Injection>, String>(None),
        platform !is Other ==> match button_named(button@) {
            Some(b) => out == Ok::<Option<Injection>, String>(
                Some(Injection::Mouse { button: b, down }),
            ),
            None => out is Err && out->Err_0@ == "boton no soportado: "@ + button@,
        },
{
    if platform == Platform::Other {
        return Ok(None);
    }
    if same_str(button, "left") {
        Ok(Some(Injection::Mouse { button: MouseButton::Left, down }))
    } else if same_str(button, "right") {
        Ok(Some(Injection::Mouse { button: MouseButton::Right, down }))
    } else if same_str(button, "middle") {
        Ok(Some(Injection::Mouse { button: MouseButton::Middle, down }))
    } else {
        Err("boton no soportado: ".to_owned().concat(button))
    }
}

/// Number of whole notches of 120 that a wheel has turned, rounded towards zero.
pub open spec fn notches(delta: int) -> int {
    if delta >= 0 {
        delta / 120
    } else {
        -(-delta / 120)
    }
}

/// Lines to scroll for a turn of the wheel: one a notch, ten at most, and one for less
/// than a notch.
pub open spec fn lines_for(delta: int) -> int {
    let n = notches(delta);
    if n > 10 {
        10
    } else if n < -10 {
        -10
    } else if n != 0 {
        n
    } else if delta > 0 {
        1
    } else if delta < 0 {
        -1
    } else {
        0
    }
}

/// What a turn of the wheel takes.
pub open spec fn scroll_injection(platform: Platform, delta: i32) -> Option<Injection> {
    match platform {
        Platform::Windows => Some(
            Injection::Wheel {
                data: if delta >= 0 {
                    delta as u32
                } else {
                    (delta + 0x1_0000_0000) as u32
                },
            },
        ),
        Platform::MacOs => Some(Injection::Lines { lines: lines_for(delta as int) as i32 }),
        Platform::Other => None,
    }
}

/// What a turn of the wheel takes.
pub fn scroll(platform: Platform, delta: i32) -> (out: Option<Injection>)
    ensures
        out == scroll_injection(platform, delta),
{
    match platform {
        Platform::Windows => {
            let data: u32 = if delta >= 0 {
                delta as u32
            } else {
                (delta as i64 + 0x1_0000_0000) as u32
            };
            Some(Injection::Wheel { data })
        },
        Platform::MacOs => {
            let size: u32 = if delta >= 0 {
                delta as u32
            } else {
                (0 - delta as i64) as u32
            };
            let whole: u32 = size / 120;
            let count: i32 = if whole > 10 {
                10
            } else if whole == 0 && size > 0 {
                1
            } else {
                whole as i32
            };
            let lines: i32 = if delta >= 0 {
                count
            } else {
                0 - count
            };
            Some(Injection::Lines { lines })
        },
        Platform::Other => None,
    }
}

/// A turn of the wheel scrolls in its own direction, by at least a line and at most ten;
/// no turn scrolls nothing.
pub proof fn law_scrolling_keeps_its_direction(delta: int)
    ensures
        delta > 0 ==> 1 <= lines_for(delta) <= 10,
        delta < 0 ==> -10 <= lines_for(delta) <= -1,
        delta == 0 ==> lines_for(delta) == 0,
{
}

/// Whether a virtual key is one of the extended keys: the arrows and the block above
/// them, the right-hand Control and Alt, the Windows keys and Num Lock.
pub open spec fn extended_key(vk: u16) -> bool {
    ||| 0x21 <= vk <= 0x28
    ||| vk == 0x2D
    ||| vk == 0x2E
    ||| vk == 0xA3
    ||| vk == 0xA5
    ||| vk == 0x5B
    ||| vk == 0x5C
    ||| vk == 0x90
}

/// Whether a virtual key is an extended one.
pub fn is_extended(vk: u16) -> (out: bool)
    ensures
        out == extended_key(vk),
{
    (0x21 <= vk && vk <= 0x28) || vk == 0x2D || vk == 0x2E || vk == 0xA3 || vk == 0xA5 || vk == 0x5B
        || vk == 0x5C || vk == 0x90
}

/// What pressing or releasing a key takes. Windows goes by the virtual key code, of
/// which zero is none; macOS goes by the key's place.
pub open spec fn key_injection(platform: Platform, vk: u16, code: Seq<char>, down: bool) -> Option<
    Injection,
> {
    match platform {
        Platform::Windows => if vk == 0 {
            None
        } else {
            Some(Injection::VirtualKey { vk, extended: extended_key(vk), up: !down })
        },
        Platform::MacOs => match mac_key(code) {
            Some(code) => Some(Injection::KeyCode { code, down }),
            None => None,
        },
        Platform::Other => None,
    }
}

/// What pressing or releasing a key takes.
pub fn key(platform: Platform, vk: u16, code: &str, down: bool) -> (out: Option<Injection>)
    ensures
        out == key_injection(platform, vk, code@, down),
{
    match platform {
        Platform::Windows => {
            if vk == 0 {
                return None;
            }
            Some(Injection::VirtualKey { vk, extended: is_extended(vk), up: !down })
        },
        Platform::MacOs => match code_to_cgkeycode(code) {
            Some(code) => Some(Injection::KeyCode { code, down }),
            None => None,
        },
        Platform::Other => None,
    }
}

/// The key of a UTF-16 code unit going down or up.
pub fn key_unicode(unit: u16, down: bool) -> (out: Injection)
    ensures
        out == (Injection::Unicode { unit, up: !down }),
{
    Injection::Unicode { unit, up: !down }
}

/// A character is a Unicode scalar value: no surrogate, and not above the last plane.
proof fn lemma_scalar(c: char)
    ensures
        c as u32 == c as int,
        0 <= c as int <= 0x10_FFFF,
        !(0xD800 <= c as int <= 0xDFFF),
{
}

/// The UTF-16 code units of a character: one, or two surrogates.
pub open spec fn utf16_units(c: char) -> Seq<u16> {
    let u = c as int;
    if u < 0x1_0000 {
        seq![u as u16]
    } else {
        seq![
            (0xD800 + (u - 0x1_0000) / 0x400) as u16,
            (0xDC00 + (u - 0x1_0000) % 0x400) as u16,
        ]
    }
}

/// The UTF-16 code units of a text.
pub open spec fn utf16_of(s: Seq<char>) -> Seq<u16>
    decreases s.len(),
{
    if s.len() == 0 {
        Seq::empty()
    } else {
        utf16_units(s[0]) + utf16_of(s.drop_first())
    }
}

/// The key strokes that type some code units: each key goes down and up again before
/// the next one.
pub open spec fn strokes(units: Seq<u16>) -> Seq<Injection> {
    Seq::new(
        2 * units.len(),
        |i: int| Injection::Unicode { unit: units[i / 2], up: i % 2 == 1 },
    )
}

/// What typing a text takes.
pub open spec fn text_injections(platform: Platform, text: Seq<char>) -> Seq<Injection> {
    match platform {
        Platform::Windows => strokes(utf16_of(text)),
        Platform::MacOs => if text.len() == 0 {
            Seq::empty()
        } else {
            seq![Injection::WholeText]
        },
        Platform::Other => Seq::empty(),
    }
}

fn push_stroke(out: &mut Vec<Injection>, unit: u16, Ghost(units): Ghost<Seq<u16>>)
    requires
        old(out)@ == strokes(units),
    ensures
        final(out)@ == strokes(units.push(unit)),
{
    out.push(key_unicode(unit, true));
    out.push(key_unicode(unit, false));
    assert(out@ =~= strokes(units.push(unit)));
}

/// What typing a text takes.
pub fn type_text(platform: Platform, text: &str) -> (out: Vec<Injection>)
    ensures
        out@ == text_injections(platform, text@),
{
    let mut out: Vec<Injection> = Vec::new();
    match platform {
        Platform::Windows => {
            let cs = chars_of(text);
            let n: usize = cs.len();
            let ghost mut units: Seq<u16> = Seq::empty();
            assert(out@ =~= strokes(units));
            assert(cs@.skip(0) =~= cs@);
            assert(Seq::<u16>::empty() + utf16_of(cs@) =~= utf16_of(cs@));
            for i in 0..n
                invariant
                    n == cs@.len(),
                    out@ == strokes(units),
                    utf16_of(cs@) == units + utf16_of(cs@.skip(i as int)),
            {
                let ghost rest = cs@.skip(i as int);
                assert(rest[0] == cs@[i as int]);
                assert(rest.drop_first() =~= cs@.skip(i + 1));
                let c: char = cs[i];
                proof {
                    lemma_scalar(c);
                }
                let u: u32 = c as u32;
                let ghost before = units;
                if u < 0x1_0000 {
                    push_stroke(&mut out, u as u16, Ghost(units));
                    proof {
                        units = units.push(u as u16);
                    }
                } else {
                    let v: u32 = u - 0x1_0000;
                    let high: u16 = (0xD800 + v / 0x400) as u16;
                    let low: u16 = (0xDC00 + v % 0x400) as u16;
                    push_stroke(&mut out, high, Ghost(units));
                    proof {
                        units = units.push(high);
                    }
                    push_stroke(&mut out, low, Ghost(units));
                    proof {
                        units = units.push(low);
                    }
                }
                assert(units =~= before + utf16_units(rest[0]));
                assert(before + (utf16_units(rest[0]) + utf16_of(cs@.skip(i + 1))) =~= units
                    + utf16_of(cs@.skip(i + 1)));
            }
            assert(cs@.skip(n as int) =~= Seq::<char>::empty());
            assert(units + Seq::<u16>::empty() =~= units);
        },
        Platform::MacOs => {
            if !text.is_empty() {
                out.push(Injection::WholeText);
            }
        },
        Platform::Other => {},
    }
    out
}

/// The text that code units stand for.
pub open spec fn utf16_text(units: Seq<u16>) -> Seq<char>
    decreases units.len(),
{
    if units.len() == 0 {
        Seq::empty()
    } else if 0xD800 <= units[0] < 0xDC00 && units.len() >= 2 {
        seq![
            (0x1_0000 + (units[0] - 0xD800) * 0x400 + (units[1] - 0xDC00)) as char,
        ] + utf16_text(units.skip(2))
    } else {
        seq![units[0] as char] + utf16_text(units.skip(1))
    }
}

/// The code units that are typed stand for the text: nothing of it is lost or changed.
pub proof fn law_typed_units_are_the_text(s: Seq<char>)
    ensures
        utf16_text(utf16_of(s)) == s,
    decreases s.len(),
{
    let units = utf16_of(s);
    if s.len() == 0 {
        assert(utf16_text(units) =~= s);
    } else {
        let tail = s.drop_first();
        law_typed_units_are_the_text(tail);
        lemma_scalar(s[0]);
        let first = utf16_units(s[0]);
        assert(units.skip(first.len() as int) =~= utf16_of(tail));
        assert(units[0] == first[0]);
        if first.len() == 2 {
            assert(units[1] == first[1]);
        }
        assert(seq![s[0]] + tail =~= s);
    }
}

/// Each key that goes down comes up again: of the strokes that type a text, every press
/// is followed by the release of the same unit.
pub proof fn law_every_press_is_released(units: Seq<u16>, i: int)
    requires
        0 <= i < units.len(),
    ensures
        strokes(units).len() == 2 * units.len(),
        strokes(units)[2 * i] == (Injection::Unicode { unit: units[i], up: false }),
        strokes(units)[2 * i + 1] == (Injection::Unicode { unit: units[i], up: true }),
{
}

// ---- Key codes of macOS ----------------------------------------------------

/// Key code of a letter.
pub open spec fn letter_key(c: char) -> Option<u16> {
    match c {
        'A' => Some(0),
        'B' => Some(11),
        'C' => Some(8),
        'D' => Some(2),
        'E' => Some(14),
        'F' => Some(3),
        'G' => Some(5),
        'H' => Some(4),
        'I' => Some(34),
        'J' => Some(38),
        'K' => Some(40),
        'L' => Some(37),
        'M' => Some(46),
        'N' => Some(45),
        'O' => Some(31),
        'P' => Some(35),
        'Q' => Some(12),
        'R' => Some(15),
        'S' => Some(1),
        'T' => Some(17),
        'U' => Some(32),
        'V' => Some(9),
        'W' => Some(13),
        'X' => Some(7),
        'Y' => Some(16),
        'Z' => Some(6),
        _ => None,
    }
}

/// Key code of a digit in the upper row.
pub open spec fn digit_key(c: char) -> Option<u16> {
    match c {
        '1' => Some(18),
        '2' => Some(19),
        '3' => Some(20),
        '4' => Some(21),
        '5' => Some(23),
        '6' => Some(22),
        '7' => Some(26),
        '8' => Some(28),
        '9' => Some(25),
        '0' => Some(29),
        _ => None,
    }
}

/// Key code of a function key.
pub open spec fn function_key(n: int) -> Option<u16> {
    if n == 1 {
        Some(122)
    } else if n == 2 {
        Some(120)
    } else if n == 3 {
        Some(99)
    } else if n == 4 {
        Some(118)
    } else if n == 5 {
        Some(96)
    } else if n == 6 {
        Some(97)
    } else if n == 7 {
        Some(98)
    } else if n == 8 {
        Some(100)
    } else if n == 9 {
        Some(101)
    } else if n == 10 {
        Some(109)
    } else if n == 11 {
        Some(103)
    } else if n == 12 {
        Some(111)
    } else {
        None
    }
}

/// Key code of a key with a name of its own.
pub open spec fn named_key(code: Seq<char>) -> Option<u16> {
    if code == "Enter"@ || code == "NumpadEnter"@ {
        Some(36)
    } else if code == "Escape"@ {
        Some(53)
    } else if code == "Backspace"@ {
        Some(51)
    } else if code == "Tab"@ {
        Some(48)
    } else if code == "Space"@ {
        Some(49)
    } else if code == "Minus"@ {
        Some(27)
    } else if code == "Equal"@ {
        Some(24)
    } else if code == "BracketLeft"@ {
        Some(33)
    } else if code == "BracketRight"@ {
        Some(30)
    } else if code == "Backslash"@ {
        Some(42)
    } else if code == "Semicolon"@ {
        Some(41)
    } else if code == "Quote"@ {
        Some(39)
    } else if code == "Backquote"@ {
        Some(50)
    } else if code == "Comma"@ {
        Some(43)
    } else if code == "Period"@ {
        Some(47)
    } else if code == "Slash"@ {
        Some(44)
    } else if code == "ArrowLeft"@ {
        Some(123)
    } else if code == "ArrowRight"@ {
        Some(124)
    } else if code == "ArrowDown"@ {
        Some(125)
    } else if code == "ArrowUp"@ {
        Some(126)
    } else if code == "Delete"@ {
        Some(117)
    } else if code == "Home"@ {
        Some(115)
    } else if code == "End"@ {
        Some(119)
    } else if code == "PageUp"@ {
        Some(116)
    } else if code == "PageDown"@ {
        Some(121)
    } else if code == "ShiftLeft"@ {
        Some(56)
    } else if code == "ShiftRight"@ {
        Some(60)
    } else if code == "ControlLeft"@ {
        Some(59)
    } else if code == "ControlRight"@ {
        Some(62)
    } else if code == "AltLeft"@ {
        Some(58)
    } else if code == "AltRight"@ {
        Some(61)
    } else if code == "MetaLeft"@ {
        Some(55)
    } else if code == "MetaRight"@ {
        Some(54)
    } else if code == "CapsLock"@ {
        Some(57)
    } else {
        None
    }
}

/// Key code on a US keyboard for the name that browsers give a key's place.
pub open spec fn mac_key(code: Seq<char>) -> Option<u16> {
    if has_prefix(code, "Key"@) {
        let rest = code.skip(3);
        if rest.len() == 1 {
            letter_key(rest[0])
        } else {
            None
        }
    } else if has_prefix(code, "Digit"@) {
        let rest = code.skip(5);
        if rest.len() == 1 {
            digit_key(rest[0])
        } else {
            None
        }
    } else if has_prefix(code, "F"@) && number_in(code.skip(1), 255) is Some {
        function_key(number_in(code.skip(1), 255)->0)
    } else {
        named_key(code)
    }
}

fn key_of_letter(c: char) -> (out: Option<u16>)
    ensures
        out == letter_key(c),
{
    match c {
        'A' => Some(0),
        'B' => Some(11),
        'C' => Some(8),
        'D' => Some(2),
        'E' => Some(14),
        'F' => Some(3),
        'G' => Some(5),
        'H' => Some(4),
        'I' => Some(34),
        'J' => Some(38),
        'K' => Some(40),
        'L' => Some(37),
        'M' => Some(46),
        'N' => Some(45),
        'O' => Some(31),
        'P' => Some(35),
        'Q' => Some(12),
        'R' => Some(15),
        'S' => Some(1),
        'T' => Some(17),
        'U' => Some(32),
        'V' => Some(9),
        'W' => Some(13),
        'X' => Some(7),
        'Y' => Some(16),
        'Z' => Some(6),
        _ => None,
    }
}

fn key_of_digit(c: char) -> (out: Option<u16>)
    ensures
        out == digit_key(c),
{
    match c {
        '1' => Some(18),
        '2' => Some(19),
        '3' => Some(20),
        '4' => Some(21),
        '5' => Some(23),
        '6' => Some(22),
        '7' => Some(26),
        '8' => Some(28),
        '9' => Some(25),
        '0' => Some(29),
        _ => None,
    }
}

fn key_of_function(n: u64) -> (out: Option<u16>)
    ensures
        out == function_key(n as int),
{
    match n {
        1 => Some(122),
        2 => Some(120),
        3 => Some(99),
        4 => Some(118),
        5 => Some(96),
        6 => Some(97),
        7 => Some(98),
        8 => Some(100),
        9 => Some(101),
        10 => Some(109),
        11 => Some(103),
        12 => Some(111),
        _ => None,
    }
}

fn key_of_name(code: &[char]) -> (out: Option<u16>)
    ensures
        out == named_key(code@),
{
    if is_text(code, "Enter") || is_text(code, "NumpadEnter") {
        Some(36)
    } else if is_text(code, "Escape") {
        Some(53)
    } else if is_text(code, "Backspace") {
        Some(51)
    } else if is_text(code, "Tab") {
        Some(48)
    } else if is_text(code, "Space") {
        Some(49)
    } else if is_text(code, "Minus") {
        Some(27)
    } else if is_text(code, "Equal") {
        Some(24)
    } else if is_text(code, "BracketLeft") {
        Some(33)
    } else if is_text(code, "BracketRight") {
        Some(30)
    } else if is_text(code, "Backslash") {
        Some(42)
    } else if is_text(code, "Semicolon") {
        Some(41)
    } else if is_text(code, "Quote") {
        Some(39)
    } else if is_text(code, "Backquote") {
        Some(50)
    } else if is_text(code, "Comma") {
        Some(43)
    } else if is_text(code, "Period") {
        Some(47)
    } else if is_text(code, "Slash") {
        Some(44)
    } else if is_text(code, "ArrowLeft") {
        Some(123)
    } else if is_text(code, "ArrowRight") {
        Some(124)
    } else if is_text(code, "ArrowDown") {
        Some(125)
    } else if is_text(code, "ArrowUp") {
        Some(126)
    } else if is_text(code, "Delete") {
        Some(117)
    } else if is_text(code, "Home") {
        Some(115)
    } else if is_text(code, "End") {
        Some(119)
    } else if is_text(code, "PageUp") {
        Some(116)
    } else if is_text(code, "PageDown") {
        Some(121)
    } else if is_text(code, "ShiftLeft") {
        Some(56)
    } else if is_text(code, "ShiftRight") {
        Some(60)
    } else if is_text(code, "ControlLeft") {
        Some(59)
    } else if is_text(code, "ControlRight") {
        Some(62)
    } else if is_text(code, "AltLeft") {
        Some(58)
    } else if is_text(code, "AltRight") {
        Some(61)
    } else if is_text(code, "MetaLeft") {
        Some(55)
    } else if is_text(code, "MetaRight") {
        Some(54)
    } else if is_text(code, "CapsLock") {
        Some(57)
    } else {
        None
    }
}

/// Translates the name that browsers give a key's place to the key code of macOS.
pub fn code_to_cgkeycode(code: &str) -> (out: Option<u16>)
    ensures
        out == mac_key(code@),
{
    proof {
        reveal_strlit("Key");
        reveal_strlit("Digit");
        reveal_strlit("F");
    }
    let cs = chars_of(code);
    let n: usize = cs.len();
    let letter = chars_of("Key");
    if starts_with(cs.as_slice(), letter.as_slice()) {
        if n != 4 {
            return None;
        }
        return key_of_letter(cs[3]);
    }
    let figure = chars_of("Digit");
    if starts_with(cs.as_slice(), figure.as_slice()) {
        if n != 6 {
            return None;
        }
        return key_of_digit(cs[5]);
    }
    let function = chars_of("F");
    if starts_with(cs.as_slice(), function.as_slice()) {
        let rest: &[char] = &cs.as_slice()[1..n];
        assert(rest@ =~= cs@.skip(1));
        if let Some(number) = parse_number(rest, 255) {
            return key_of_function(number);
        }
    }
    key_of_name(cs.as_slice())
}

// ---- Events and injections together ----------------------------------------

/// What an event takes. A button that does not exist takes nothing.
pub open spec fn injections_for(platform: Platform, event: InputEvent) -> Seq<Injection> {
    match event {
        InputEvent::Move => if platform is Other {
            Seq::empty()
        } else {
            seq![Injection::MovePointer]
        },
        InputEvent::Button { button, down } => match button_named(button@) {
            Some(b) => if platform is Other {
                Seq::empty()
            } else {
                seq![Injection::Mouse { button: b, down }]
            },
            None => Seq::empty(),
        },
        InputEvent::Scroll { delta } => one_or_none(scroll_injection(platform, delta)),
        InputEvent::Key { vk, code, down } => one_or_none(
            key_injection(platform, vk, code@, down),
        ),
        InputEvent::Text { text } => text_injections(platform, text@),
        InputEvent::Nothing => Seq::empty(),
    }
}

/// A row of one injection, or of none.
pub open spec fn one_or_none(injection: Option<Injection>) -> Seq<Injection> {
    match injection {
        Some(i) => seq![i],
        None => Seq::empty(),
    }
}

fn row_of(injection: Option<Injection>) -> (out: Vec<Injection>)
    ensures
        out@ == one_or_none(injection),
{
    let mut out: Vec<Injection> = Vec::new();
    if let Some(i) = injection {
        out.push(i);
    }
    out
}

/// What an event takes.
pub fn inject(platform: Platform, event: &InputEvent) -> (out: Vec<Injection>)
    ensures
        out@ == injections_for(platform, *event),
{
    match event {
        InputEvent::Move => {
            if platform == Platform::Other {
                row_of(None)
            } else {
                row_of(Some(Injection::MovePointer))
            }
        },
        InputEvent::Button { button, down } => match mouse_button(
            platform,
            button.as_str(),
            *down,
        ) {
            Ok(found) => row_of(found),
            Err(_) => row_of(None),
        },
        InputEvent::Scroll { delta } => row_of(scroll(platform, *delta)),
        InputEvent::Key { vk, code, down } => row_of(key(platform, *vk, code.as_str(), *down)),
        InputEvent::Text { text } => type_text(platform, text.as_str()),
        InputEvent::Nothing => row_of(None),
    }
}

/// Reads the event in a message's payload and decides what it takes.
pub fn apply_input(platform: Platform, payload: &[u8]) -> (out: (InputEvent, Vec<Injection>))
    ensures
        event_of(fields_in(payload@), out.0),
        out.1@ == injections_for(platform, out.0),
{
    let event = read_input(payload);
    let injections = inject(platform, &event);
    (event, injections)
}

/// Where input cannot be injected, no event takes anything.
pub proof fn law_other_platforms_inject_nothing(event: InputEvent)
    ensures
        injections_for(Platform::Other, event).len() == 0,
{
}

// ---- From a viewer's message to what is injected ---------------------------

/// The words that messages and keys are named with differ from each other.
proof fn lemma_words_differ()
    ensures
        "move"@ != "btn"@,
        "move"@ != "scroll"@,
        "move"@ != "key"@,
        "move"@ != "text"@,
        "btn"@ != "scroll"@,
        "btn"@ != "key"@,
        "btn"@ != "text"@,
        "scroll"@ != "key"@,
        "scroll"@ != "text"@,
        "key"@ != "text"@,
        ""@ != "move"@ && ""@ != "btn"@ && ""@ != "scroll"@ && ""@ != "key"@ && ""@ != "text"@,
        "left"@ != "right"@,
        "left"@ != "middle"@,
        "right"@ != "middle"@,
{
    reveal_strlit("move");
    reveal_strlit("btn");
    reveal_strlit("scroll");
    reveal_strlit("key");
    reveal_strlit("text");
    reveal_strlit("");
    reveal_strlit("left");
    reveal_strlit("right");
    reveal_strlit("middle");
    assert("move"@[0] != "text"@[0]);
    assert("btn"@[0] != "key"@[0]);
    assert("scroll"@.len() == 6 && "move"@.len() == 4 && "text"@.len() == 4);
    assert("btn"@.len() == 3 && "key"@.len() == 3 && ""@.len() == 0);
    assert("left"@.len() == 4 && "right"@.len() == 5 && "middle"@.len() == 6);
}

/// A viewer that moves its pointer moves the host's, once.
pub proof fn law_a_move_moves_the_pointer(platform: Platform, payload: Seq<u8>, event: InputEvent)
    requires
        event_of(fields_in(payload), event),
        json_str_at(payload, "t"@) == Some("move"@),
        platform is Windows || platform is MacOs,
    ensures
        injections_for(platform, event) == seq![Injection::MovePointer],
{
}

/// The button that the viewer names goes down where the message says so, and up where it
/// does not: `down` is the truth value of the field, and a button that is not held down is
/// released. Without a name it is the left button, and another name stands for none.
pub proof fn law_buttons_are_pressed_and_released(
    platform: Platform,
    payload: Seq<u8>,
    event: InputEvent,
)
    requires
        event_of(fields_in(payload), event),
        json_str_at(payload, "t"@) == Some("btn"@),
        platform is Windows || platform is MacOs,
    ensures
        ({
            let pressed = json_bool_at(payload, "down"@) == Some(true);
            let name = json_str_at(payload, "button"@);
            let done = injections_for(platform, event);
            &&& name is None || name == Some("left"@) ==> done == seq![
                Injection::Mouse { button: MouseButton::Left, down: pressed },
            ]
            &&& name == Some("right"@) ==> done == seq![
                Injection::Mouse { button: MouseButton::Right, down: pressed },
            ]
            &&& name == Some("middle"@) ==> done == seq![
                Injection::Mouse { button: MouseButton::Middle, down: pressed },
            ]
            &&& name is Some && name != Some("left"@) && name != Some("right"@) && name != Some(
                "middle"@,
            ) ==> done.len() == 0
        }),
        json_bool_at(payload, "down"@) == Some(false) || json_bool_at(payload, "down"@) is None
            ==> forall|i: int|
            0 <= i < injections_for(platform, event).len() ==> match #[trigger] injections_for(
                platform,
                event,
            )[i] {
                Injection::Mouse { button, down } => !down,
                _ => false,
            },
{
    lemma_words_differ();
}

/// On Windows the virtual key that the message names goes down where the message says so,
/// and up where it does not. The code counts with its lower 16 bits, and zero is no key. The
/// arrows and the block above them, the right-hand Control and Alt, the Windows keys and Num
/// Lock are extended.
pub proof fn law_windows_keys_are_pressed_and_released(payload: Seq<u8>, event: InputEvent)
    requires
        event_of(fields_in(payload), event),
        json_str_at(payload, "t"@) == Some("key"@),
    ensures
        ({
            let pressed = json_bool_at(payload, "down"@) == Some(true);
            let done = injections_for(Platform::Windows, event);
            match json_u64_at(payload, "vk"@) {
                None => done.len() == 0,
                Some(v) => if v % 0x1_0000 == 0 {
                    done.len() == 0
                } else {
                    let vk = (v % 0x1_0000) as u16;
                    done == seq![
                        Injection::VirtualKey {
                            vk,
                            extended: (33 <= vk && vk <= 40) || vk == 45 || vk == 46 || vk == 91
                                || vk == 92 || vk == 144 || vk == 163 || vk == 165,
                            up: !pressed,
                        },
                    ]
                },
            }
        }),
{
    lemma_words_differ();
}

/// On macOS the key at the place that the message names goes down where the message says so,
/// and up where it does not. A place without a key code injects nothing.
pub proof fn law_mac_keys_are_pressed_and_released(payload: Seq<u8>, event: InputEvent)
    requires
        event_of(fields_in(payload), event),
        json_str_at(payload, "t"@) == Some("key"@),
    ensures
        ({
            let pressed = json_bool_at(payload, "down"@) == Some(true);
            let done = injections_for(Platform::MacOs, event);
            let place = match json_str_at(payload, "code"@) {
                Some(code) => code,
                None => Seq::empty(),
            };
            match mac_key(place) {
                Some(code) => done == seq![Injection::KeyCode { code, down: pressed }],
                None => done.len() == 0,
            }
        }),
{
    lemma_words_differ();
    reveal_strlit("");
    assert(""@ =~= Seq::empty());
}

/// A turn of the wheel reaches the host. Windows takes it as it is, in two's complement.
/// macOS scrolls a line for every 120 that it was turned by, in the same direction, at least
/// one line and at most ten. Without a number the wheel was not turned.
pub proof fn law_the_wheel_turns_as_far(payload: Seq<u8>, event: InputEvent, turned: int)
    requires
        event_of(fields_in(payload), event),
        json_str_at(payload, "t"@) == Some("scroll"@),
        turned == match json_i64_at(payload, "delta"@) {
            Some(delta) => delta as int,
            None => 0,
        },
        -0x8000_0000 <= turned < 0x8000_0000,
    ensures
        injections_for(Platform::Windows, event) == seq![
            Injection::Wheel {
                data: (if turned < 0 {
                    turned + 4294967296
                } else {
                    turned
                }) as u32,
            },
        ],
        ({
            let done = injections_for(Platform::MacOs, event);
            &&& done.len() == 1
            &&& done[0] is Lines
            &&& turned == 0 ==> done[0]->lines == 0
            &&& 0 < turned < 240 ==> done[0]->lines == 1
            &&& 240 <= turned < 1200 ==> done[0]->lines * 120 <= turned < (done[0]->lines + 1)
                * 120
            &&& 1200 <= turned ==> done[0]->lines == 10
            &&& -240 < turned < 0 ==> done[0]->lines == -1
            &&& -1200 < turned <= -240 ==> done[0]->lines * 120 >= turned > (done[0]->lines - 1)
                * 120
            &&& turned <= -1200 ==> done[0]->lines == -10
        }),
{
    lemma_words_differ();
    assert(low_signed_32(turned) == turned);
}

/// A number that is too wide keeps its lower 32 bits: it changes by a multiple of 2 to the
/// power of 32, into the range of a signed number.
pub proof fn law_wide_numbers_keep_their_lower_bits(n: int)
    ensures
        -0x8000_0000 <= low_signed_32(n) < 0x8000_0000,
        (n - low_signed_32(n)) % 4294967296 == 0,
{
}

/// Text that a viewer types is typed on the host. On Windows each code unit goes down and up
/// again, and the units together are the text; on macOS the text is typed at once. A message
/// without a text types nothing.
pub proof fn law_text_is_typed(payload: Seq<u8>, event: InputEvent)
    requires
        event_of(fields_in(payload), event),
        json_str_at(payload, "t"@) == Some("text"@),
    ensures
        match json_str_at(payload, "text"@) {
            None => injections_for(Platform::Windows, event).len() == 0 && injections_for(
                Platform::MacOs,
                event,
            ).len() == 0,
            Some(text) => {
                let done = injections_for(Platform::Windows, event);
                &&& done.len() % 2 == 0
                &&& forall|i: int|
                    0 <= i < done.len() ==> (#[trigger] done[i]) == (Injection::Unicode {
                        unit: done[i / 2 * 2]->unit,
                        up: i % 2 == 1,
                    })
                &&& utf16_text(
                    Seq::new(done.len() / 2, |i: int| done[2 * i]->unit),
                ) == text
                &&& injections_for(Platform::MacOs, event) == if text.len() == 0 {
                    Seq::<Injection>::empty()
                } else {
                    seq![Injection::WholeText]
                }
            },
        },
{
    lemma_words_differ();
    if let Some(text) = json_str_at(payload, "text"@) {
        let done = injections_for(Platform::Windows, event);
        law_typed_units_are_the_text(text);
        assert(Seq::new(done.len() / 2, |i: int| done[2 * i]->unit) =~= utf16_of(text));
    }
}

/// A character outside the first plane is typed as a high surrogate and a low one behind it,
/// of ten bits each; any other character is its own code unit.
pub proof fn law_surrogates_hold_ten_bits_each(c: char)
    ensures
        (c as int) < 0x1_0000 ==> utf16_of(seq![c]).len() == 1 && utf16_of(seq![c])[0] == c as int,
        c as int >= 0x1_0000 ==> {
            &&& utf16_of(seq![c]).len() == 2
            &&& 0xD800 <= utf16_of(seq![c])[0] < 0xDC00
            &&& 0xDC00 <= utf16_of(seq![c])[1] < 0xE000
            &&& (utf16_of(seq![c])[0] - 0xD800) * 1024 + (utf16_of(seq![c])[1] - 0xDC00) + 65536
                == c as int
        },
{
    lemma_scalar(c);
    let one = seq![c];
    assert(one.drop_first() =~= Seq::empty());
    reveal_with_fuel(utf16_of, 2);
    assert(utf16_of(one) =~= utf16_units(c));
}

/// A message of another kind, or of none, injects nothing.
pub proof fn law_other_words_inject_nothing(
    platform: Platform,
    payload: Seq<u8>,
    event: InputEvent,
)
    requires
        event_of(fields_in(payload), event),
        json_str_at(payload, "t"@) != Some("move"@),
        json_str_at(payload, "t"@) != Some("btn"@),
        json_str_at(payload, "t"@) != Some("scroll"@),
        json_str_at(payload, "t"@) != Some("key"@),
        json_str_at(payload, "t"@) != Some("text"@),
    ensures
        injections_for(platform, event).len() == 0,
{
    lemma_words_differ();
}

/// Whether a text begins with one of the three beginnings that keys are grouped by.
proof fn lemma_beginnings(code: Seq<char>)
    ensures
        has_prefix(code, "Key"@) <==> code.len() >= 3 && code[0] == 'K' && code[1] == 'e'
            && code[2] == 'y',
        has_prefix(code, "Digit"@) <==> code.len() >= 5 && code[0] == 'D' && code[1] == 'i'
            && code[2] == 'g' && code[3] == 'i' && code[4] == 't',
        has_prefix(code, "F"@) <==> code.len() >= 1 && code[0] == 'F',
{
    reveal_strlit("Key");
    reveal_strlit("Digit");
    reveal_strlit("F");
    if code.len() >= 3 && code[0] == 'K' && code[1] == 'e' && code[2] == 'y' {
        assert(code.take(3) =~= "Key"@);
    }
    if has_prefix(code, "Key"@) {
        assert(code.take(3)[0] == code[0] && code.take(3)[1] == code[1] && code.take(3)[2]
            == code[2]);
    }
    if code.len() >= 5 && code[0] == 'D' && code[1] == 'i' && code[2] == 'g' && code[3] == 'i'
        && code[4] == 't' {
        assert(code.take(5) =~= "Digit"@);
    }
    if has_prefix(code, "Digit"@) {
        let t = code.take(5);
        assert(t[0] == code[0] && t[1] == code[1] && t[2] == code[2] && t[3] == code[3] && t[4]
            == code[4]);
    }
    if code.len() >= 1 && code[0] == 'F' {
        assert(code.take(1) =~= "F"@);
    }
    if has_prefix(code, "F"@) {
        assert(code.take(1)[0] == code[0]);
    }
}

/// Letters and digits have the key codes of their places on a US keyboard, which macOS
/// numbers from the left of the middle row on. Another character behind `Key` or `Digit`, or
/// more than one, is no key.
pub proof fn law_characters_have_the_codes_of_their_places(c: char, rest: Seq<char>)
    ensures
        ({
            let keyboard = "ASDFHGZXCV BQWERYT123465=97-80]OU[IP LJ'K;\\,/NM.  `"@;
            &&& 'A' <= c <= 'Z' ==> match mac_key("Key"@ + seq![c]) {
                Some(code) => code < 51 && keyboard[code as int] == c,
                None => false,
            }
            &&& '0' <= c <= '9' ==> match mac_key("Digit"@ + seq![c]) {
                Some(code) => code < 51 && keyboard[code as int] == c,
                None => false,
            }
            &&& !('A' <= c <= 'Z') ==> mac_key("Key"@ + seq![c]) is None
            &&& !('0' <= c <= '9') ==> mac_key("Digit"@ + seq![c]) is None
            &&& rest.len() != 1 ==> mac_key("Key"@ + rest) is None && mac_key("Digit"@ + rest) is None
        }),
{
    reveal_strlit("ASDFHGZXCV BQWERYT123465=97-80]OU[IP LJ'K;\\,/NM.  `");
    reveal_strlit("Key");
    reveal_strlit("Digit");
    lemma_beginnings("Key"@ + seq![c]);
    lemma_beginnings("Digit"@ + seq![c]);
    lemma_beginnings("Key"@ + rest);
    lemma_beginnings("Digit"@ + rest);
    assert(("Key"@ + seq![c]).skip(3) =~= seq![c]);
    assert(("Digit"@ + seq![c]).skip(5) =~= seq![c]);
    assert(("Key"@ + rest).skip(3) =~= rest);
    assert(("Digit"@ + rest).skip(5) =~= rest);
}

/// The twelve function keys have the key codes that macOS gives them; there is no other.
pub proof fn law_function_keys_have_their_codes(n: nat)
    requires
        n <= 255,
    ensures
        ({
            let codes = seq![122u16, 120, 99, 118, 96, 97, 98, 100, 101, 109, 103, 111];
            if 1 <= n <= 12 {
                mac_key("F"@ + crate::text::decimal_text(n)) == Some(codes[n - 1])
            } else {
                mac_key("F"@ + crate::text::decimal_text(n)) is None
            }
        }),
{
    reveal_strlit("F");
    let number = crate::text::decimal_text(n);
    lemma_beginnings("F"@ + number);
    assert(("F"@ + number).skip(1) =~= number);
    crate::text::law_decimal_reads_back(n, 255);
}

/// Each key with a name of its own has the key code of its place.
pub proof fn law_named_keys_have_their_codes()
    ensures
        mac_key("Enter"@) == Some(36u16),
        mac_key("NumpadEnter"@) == Some(36u16),
        mac_key("Escape"@) == Some(53u16),
        mac_key("Backspace"@) == Some(51u16),
        mac_key("Tab"@) == Some(48u16),
        mac_key("Space"@) == Some(49u16),
        mac_key("Minus"@) == Some(27u16),
        mac_key("Equal"@) == Some(24u16),
        mac_key("BracketLeft"@) == Some(33u16),
        mac_key("BracketRight"@) == Some(30u16),
        mac_key("Backslash"@) == Some(42u16),
        mac_key("Semicolon"@) == Some(41u16),
        mac_key("Quote"@) == Some(39u16),
        mac_key("Backquote"@) == Some(50u16),
        mac_key("Comma"@) == Some(43u16),
        mac_key("Period"@) == Some(47u16),
        mac_key("Slash"@) == Some(44u16),
        mac_key("ArrowLeft"@) == Some(123u16),
        mac_key("ArrowRight"@) == Some(124u16),
        mac_key("ArrowDown"@) == Some(125u16),
        mac_key("ArrowUp"@) == Some(126u16),
        mac_key("Delete"@) == Some(117u16),
        mac_key("Home"@) == Some(115u16),
        mac_key("End"@) == Some(119u16),
        mac_key("PageUp"@) == Some(116u16),
        mac_key("PageDown"@) == Some(121u16),
        mac_key("ShiftLeft"@) == Some(56u16),
        mac_key("ShiftRight"@) == Some(60u16),
        mac_key("ControlLeft"@) == Some(59u16),
        mac_key("ControlRight"@) == Some(62u16),
        mac_key("AltLeft"@) == Some(58u16),
        mac_key("AltRight"@) == Some(61u16),
        mac_key("MetaLeft"@) == Some(55u16),
        mac_key("MetaRight"@) == Some(54u16),
        mac_key("CapsLock"@) == Some(57u16),
{
    reveal_strlit("Enter");
    reveal_strlit("NumpadEnter");
    reveal_strlit("Escape");
    reveal_strlit("Backspace");
    reveal_strlit("Tab");
    reveal_strlit("Space");
    reveal_strlit("Minus");
    reveal_strlit("Equal");
    reveal_strlit("BracketLeft");
    reveal_strlit("BracketRight");
    reveal_strlit("Backslash");
    reveal_strlit("Semicolon");
    reveal_strlit("Quote");
    reveal_strlit("Backquote");
    reveal_strlit("Comma");
    reveal_strlit("Period");
    reveal_strlit("Slash");
    reveal_strlit("ArrowLeft");
    reveal_strlit("ArrowRight");
    reveal_strlit("ArrowDown");
    reveal_strlit("ArrowUp");
    reveal_strlit("Delete");
    reveal_strlit("Home");
    reveal_strlit("End");
    reveal_strlit("PageUp");
    reveal_strlit("PageDown");
    reveal_strlit("ShiftLeft");
    reveal_strlit("ShiftRight");
    reveal_strlit("ControlLeft");
    reveal_strlit("ControlRight");
    reveal_strlit("AltLeft");
    reveal_strlit("AltRight");
    reveal_strlit("MetaLeft");
    reveal_strlit("MetaRight");
    reveal_strlit("CapsLock");
    lemma_beginnings("Enter"@);
    lemma_beginnings("NumpadEnter"@);
    lemma_beginnings("Escape"@);
    lemma_beginnings("Backspace"@);
    lemma_beginnings("Tab"@);
    lemma_beginnings("Space"@);
    lemma_beginnings("Minus"@);
    lemma_beginnings("Equal"@);
    lemma_beginnings("BracketLeft"@);
    lemma_beginnings("BracketRight"@);
    lemma_beginnings("Backslash"@);
    lemma_beginnings("Semicolon"@);
    lemma_beginnings("Quote"@);
    lemma_beginnings("Backquote"@);
    lemma_beginnings("Comma"@);
    lemma_beginnings("Period"@);
    lemma_beginnings("Slash"@);
    lemma_beginnings("ArrowLeft"@);
    lemma_beginnings("ArrowRight"@);
    lemma_beginnings("ArrowDown"@);
    lemma_beginnings("ArrowUp"@);
    lemma_beginnings("Delete"@);
    lemma_beginnings("Home"@);
    lemma_beginnings("End"@);
    lemma_beginnings("PageUp"@);
    lemma_beginnings("PageDown"@);
    lemma_beginnings("ShiftLeft"@);
    lemma_beginnings("ShiftRight"@);
    lemma_beginnings("ControlLeft"@);
    lemma_beginnings("ControlRight"@);
    lemma_beginnings("AltLeft"@);
    lemma_beginnings("AltRight"@);
    lemma_beginnings("MetaLeft"@);
    lemma_beginnings("MetaRight"@);
    lemma_beginnings("CapsLock"@);
}

/// Text is typed character by character, in its order: the code units of two texts in a row
/// are those of the first and then those of the second.
pub proof fn law_text_is_typed_in_its_order(a: Seq<char>, b: Seq<char>)
    ensures
        utf16_of(a + b) == utf16_of(a) + utf16_of(b),
    decreases a.len(),
{
    if a.len() == 0 {
        assert(a + b =~= b);
        assert(utf16_of(a) + utf16_of(b) =~= utf16_of(b));
    } else {
        law_text_is_typed_in_its_order(a.drop_first(), b);
        assert((a + b).drop_first() =~= a.drop_first() + b);
        assert((a + b)[0] == a[0]);
        assert(utf16_of(a + b) =~= utf16_of(a) + utf16_of(b));
    }
}

/// A place that is none of the letters, digits and function keys has a key code only where it is
/// one of the keys with a name of their own.
pub proof fn law_no_other_place_has_a_code(code: Seq<char>)
    requires
        mac_key(code) is Some,
        !has_prefix(code, "Key"@),
        !has_prefix(code, "Digit"@),
        !has_prefix(code, "F"@),
    ensures
        code == "Enter"@ || code == "NumpadEnter"@ || code == "Escape"@
            || code == "Backspace"@ || code == "Tab"@ || code == "Space"@
            || code == "Minus"@ || code == "Equal"@ || code == "BracketLeft"@
            || code == "BracketRight"@ || code == "Backslash"@ || code == "Semicolon"@
            || code == "Quote"@ || code == "Backquote"@ || code == "Comma"@
            || code == "Period"@ || code == "Slash"@ || code == "ArrowLeft"@
            || code == "ArrowRight"@ || code == "ArrowDown"@ || code == "ArrowUp"@
            || code == "Delete"@ || code == "Home"@ || code == "End"@
            || code == "PageUp"@ || code == "PageDown"@ || code == "ShiftLeft"@
            || code == "ShiftRight"@ || code == "ControlLeft"@ || code == "ControlRight"@
            || code == "AltLeft"@ || code == "AltRight"@ || code == "MetaLeft"@
            || code == "MetaRight"@ || code == "CapsLock"@,
{
}

} // verus!
