//! The device's identity: an ID of nine digits that is made once and kept, and the
//! password of a session, four digits that are made anew whenever the user asks.
use crate::text::{
    all_digits, chars_of, digit, digit_char, string_of, trim, trimmed,
};
use vstd::prelude::*;

verus! {

/// What is kept of a device.
pub struct Identity {
    /// ID of the device: nine digits, the same from one start to the next.
    pub id: String,
    /// Name that the device is shown by.
    pub device_name: String,
    /// Whether the device can be reached without anybody's approval.
    pub unattended: bool,
    /// When the identity was made, in seconds since 1970.
    pub created_at: u64,
    /// Whether starting with the system has been set up once.
    pub autostart_initialized: bool,
}

/// What a random number starts from: the clock and the number of the process.
#[derive(Clone, Copy, PartialEq, Eq, Debug, Structural)]
pub struct Entropy {
    /// Nanoseconds since 1970; none where the clock stands before that.
    pub nanos: Option<u128>,
    /// Number of the process.
    pub pid: u32,
}

/// Name of the file that the identity is kept in, in the program's data directory.
pub fn identity_path() -> (out: &'static str)
    ensures
        out@ == "identity.json"@,
{
    "identity.json"
}

/// Seconds since 1970 on a clock that may stand before that.
pub fn now_secs(clock: Option<u64>) -> (out: u64)
    ensures
        out == if let Some(secs) = clock {
            secs
        } else {
            0
        },
{
    match clock {
        Some(secs) => secs,
        None => 0,
    }
}

// ---- Numbers ---------------------------------------------------------------

/// A word with its bits moved up by 17 places, those that leave it coming in below.
pub open spec fn rotated_17(x: u64) -> u64 {
    (x << 17) | (x >> 47)
}

/// State that the numbers start from.
pub open spec fn seed(entropy: Entropy) -> u64 {
    let clock = if let Some(nanos) = entropy.nanos {
        (nanos % 0x1_0000_0000_0000_0000) as u64
    } else {
        0x9e37_79b9_7f4a_7c15
    };
    clock ^ rotated_17(entropy.pid as u64)
}

/// The state after a state, by xorshift.
pub open spec fn next_state(x: u64) -> u64 {
    let a = x ^ (x << 13);
    let b = a ^ (a >> 7);
    b ^ (b << 17)
}

/// The state after `n` steps.
pub open spec fn state_after(x: u64, n: nat) -> u64
    decreases n,
{
    if n == 0 {
        x
    } else {
        next_state(state_after(x, (n - 1) as nat))
    }
}

/// Digit number `i`, counted from zero. The first digit is never zero.
pub open spec fn nth_digit(start: u64, i: int) -> int {
    let d = state_after(start, (i + 1) as nat) as int % 10;
    if i == 0 && d == 0 {
        1
    } else {
        d
    }
}

/// The number with the given count of digits.
pub open spec fn numeric_id(start: u64, digits: nat) -> Seq<char> {
    Seq::new(digits, |i: int| digit_char(nth_digit(start, i)))
}

fn start_state(entropy: Entropy) -> (out: u64)
    ensures
        out == seed(entropy),
{
    let clock: u64 = match entropy.nanos {
        Some(nanos) => (nanos % 0x1_0000_0000_0000_0000) as u64,
        None => 0x9e37_79b9_7f4a_7c15,
    };
    let pid: u64 = entropy.pid as u64;
    clock ^ ((pid << 17) | (pid >> 47))
}

/// Makes a number with the given count of digits.
pub fn generate_numeric_id(digits: usize, entropy: Entropy) -> (out: String)
    ensures
        out@ == numeric_id(seed(entropy), digits as nat),
{
    let start: u64 = start_state(entropy);
    let mut state: u64 = start;
    let mut out = String::new();
    for i in 0..digits
        invariant
            start == seed(entropy),
            state == state_after(start, i as nat),
            out@ == numeric_id(start, i as nat),
    {
        state = state ^ (state << 13);
        state = state ^ (state >> 7);
        state = state ^ (state << 17);
        assert(state == state_after(start, (i + 1) as nat));
        let mut d: u8 = (state % 10) as u8;
        if i == 0 && d == 0 {
            d = 1;
        }
        let c: char = (48u8 + d) as char;
        assert(c == digit_char(nth_digit(start, i as int)));
        out.push(c);
        assert(out@ =~= numeric_id(start, (i + 1) as nat));
    }
    out
}

/// Makes a session's password: four digits.
pub fn generate_session_password(entropy: Entropy) -> (out: String)
    ensures
        out@ == numeric_id(seed(entropy), 4),
{
    generate_numeric_id(4, entropy)
}

/// A number has as many digits as were asked for and nothing else, and the first is not
/// zero.
pub proof fn law_numbers_are_digits(start: u64, digits: nat)
    ensures
        numeric_id(start, digits).len() == digits,
        all_digits(numeric_id(start, digits)),
        digits > 0 ==> numeric_id(start, digits)[0] != '0',
{
    let s = numeric_id(start, digits);
    assert forall|i: int| 0 <= i < s.len() implies digit(#[trigger] s[i]) by {
        assert(s[i] == digit_char(nth_digit(start, i)));
    }
    if digits > 0 {
        assert(s[0] == digit_char(nth_digit(start, 0)));
    }
}

/// A device that has an ID is found under it: searching for the ID asks for all of it.
pub proof fn law_id_can_be_searched_for(start: u64)
    ensures
        crate::text::digits_in(trimmed(numeric_id(start, 9))) == numeric_id(start, 9),
{
    law_numbers_are_digits(start, 9);
    crate::discovery::law_id_is_searched_whole(numeric_id(start, 9));
}

/// The numbers never get stuck: a state that is not zero is followed by one that is not.
pub proof fn law_states_stay_away_from_zero(x: u64)
    requires
        x != 0,
    ensures
        next_state(x) != 0,
{
    assert({
        let a = x ^ (x << 13);
        let b = a ^ (a >> 7);
        (b ^ (b << 17)) != 0
    }) by (bit_vector)
        requires
            x != 0,
    ;
}

// ---- Identities ------------------------------------------------------------

/// Whether starting with the system is to be set up, given whether it has been.
pub open spec fn autostart_wanted(initialized: bool) -> bool {
    !initialized
}

/// Whether starting with the system has been set up after a try.
pub open spec fn autostart_after(initialized: bool, ok: bool) -> bool {
    initialized || ok
}

impl Identity {
    /// A new identity for a device with the given name.
    pub fn generate(device_name: String, entropy: Entropy, clock: Option<u64>) -> (out: Identity)
        ensures
            out.id@ == numeric_id(seed(entropy), 9),
            out.device_name == device_name,
            out.unattended,
            out.created_at == if let Some(secs) = clock {
                secs
            } else {
                0
            },
            !out.autostart_initialized,
    {
        Identity {
            id: generate_numeric_id(9, entropy),
            device_name,
            unattended: true,
            created_at: now_secs(clock),
            autostart_initialized: false,
        }
    }

    /// Gives the device another name. It is trimmed, and must not be empty then.
    pub fn rename(&mut self, name: &str) -> (out: Result<(), String>)
        ensures
            trimmed(name@).len() == 0 ==> {
                &&& out is Err
                &&& out->Err_0@ == "El nombre no puede estar vacio"@
                &&& *final(self) == *old(self)
            },
            trimmed(name@).len() > 0 ==> {
                &&& out is Ok
                &&& final(self).device_name@ == trimmed(name@)
                &&& *final(self) == (Identity {
                    device_name: final(self).device_name,
                    ..*old(self)
                })
            },
    {
        let cs = chars_of(name);
        let clean: &[char] = trim(cs.as_slice());
        if clean.len() == 0 {
            return Err("El nombre no puede estar vacio".to_owned());
        }
        self.device_name = string_of(clean);
        Ok(())
    }

    /// Whether starting with the system is to be set up. That happens once in the life of
    /// an identity.
    pub fn wants_autostart(&self) -> (out: bool)
        ensures
            out == autostart_wanted(self.autostart_initialized),
    {
        !self.autostart_initialized
    }

    /// Takes whether starting with the system could be set up. Where it could not, it is
    /// tried again at the next start. The result says whether the identity has changed
    /// and is to be saved.
    pub fn autostart_set_up(&mut self, ok: bool) -> (save: bool)
        ensures
            save == ok,
            *final(self) == (Identity {
                autostart_initialized: autostart_after(old(self).autostart_initialized, ok),
                ..*old(self)
            }),
    {
        if ok {
            self.autostart_initialized = true;
        }
        ok
    }
}

/// Whether starting with the system has been set up after a row of starts, and how often
/// it was. Each start tries where it has not been set up before, and `outcomes` says
/// whether the try of a start succeeds.
pub open spec fn autostarts(initialized: bool, outcomes: Seq<bool>) -> (bool, nat)
    decreases outcomes.len(),
{
    if outcomes.len() == 0 {
        (initialized, 0)
    } else {
        let (before, count) = autostarts(initialized, outcomes.drop_last());
        if !autostart_wanted(before) {
            (before, count)
        } else if outcomes.last() {
            (autostart_after(before, true), count + 1)
        } else {
            (autostart_after(before, false), count)
        }
    }
}

/// Starting with the system is set up once at most in the life of an identity: what the
/// user changes afterwards is not touched again. It is tried until it succeeds.
pub proof fn law_autostart_is_set_up_once(initialized: bool, outcomes: Seq<bool>)
    ensures
        autostarts(initialized, outcomes).0 == (initialized || outcomes.contains(true)),
        autostarts(initialized, outcomes).1 == if !initialized && outcomes.contains(true) {
            1nat
        } else {
            0nat
        },
    decreases outcomes.len(),
{
    if outcomes.len() > 0 {
        let front = outcomes.drop_last();
        law_autostart_is_set_up_once(initialized, front);
        if front.contains(true) {
            let i = choose|i: int| 0 <= i < front.len() && front[i];
            assert(outcomes[i]);
        }
        if outcomes.last() {
            assert(outcomes[outcomes.len() - 1]);
        }
        if outcomes.contains(true) && !outcomes.last() {
            let i = choose|i: int| 0 <= i < outcomes.len() && outcomes[i];
            assert(front[i]);
        }
    }
}

/// The identity of a device that starts: the one that was kept, or a new one. The second
/// part says whether it is new and has to be saved.
pub fn load_or_create(
    kept: Option<Identity>,
    default_device_name: String,
    entropy: Entropy,
    clock: Option<u64>,
) -> (out: (Identity, bool))
    ensures
        match kept {
            Some(identity) => out.0 == identity && !out.1,
            None => {
                &&& out.1
                &&& out.0.id@ == numeric_id(seed(entropy), 9)
                &&& out.0.device_name == default_device_name
                &&& out.0.unattended
                &&& out.0.created_at == if let Some(secs) = clock {
                    secs
                } else {
                    0
                }
                &&& !out.0.autostart_initialized
            },
        },
{
    match kept {
        Some(identity) => (identity, false),
        None => (Identity::generate(default_device_name, entropy, clock), true),
    }
}

/// Digits of a number that was made: each is the last digit of the next state, but the first
/// is not zero. A longer number from the same start begins with the shorter one.
pub proof fn law_digits_come_from_the_states(start: u64, digits: nat, fewer: nat, i: int)
    requires
        0 <= i < digits,
        fewer <= digits,
    ensures
        ({
            let last = state_after(start, (i + 1) as nat) as int % 10;
            let c = numeric_id(start, digits)[i];
            &&& i > 0 || last != 0 ==> c as int == 48 + last
            &&& i == 0 && last == 0 ==> c == '1'
        }),
        numeric_id(start, digits).take(fewer as int) == numeric_id(start, fewer),
        state_after(start, 0) == start,
        state_after(start, (i + 1) as nat) == next_state(state_after(start, i as nat)),
{
    assert(numeric_id(start, digits).take(fewer as int) =~= numeric_id(start, fewer));
}

/// Two devices that start at different times, or two processes that start at the same time,
/// start from different states.
pub proof fn law_other_clocks_and_processes_start_elsewhere(
    nanos: u128,
    later: u128,
    pid: u32,
    other: u32,
)
    requires
        nanos < 0x1_0000_0000_0000_0000,
        later < 0x1_0000_0000_0000_0000,
    ensures
        nanos != later ==> seed(Entropy { nanos: Some(nanos), pid }) != seed(
            Entropy { nanos: Some(later), pid },
        ),
        pid != other ==> seed(Entropy { nanos: Some(nanos), pid }) != seed(
            Entropy { nanos: Some(nanos), pid: other },
        ),
        pid != other ==> seed(Entropy { nanos: None, pid }) != seed(
            Entropy { nanos: None, pid: other },
        ),
{
    let a = nanos as u64;
    let b = later as u64;
    let p = pid as u64;
    let q = other as u64;
    let none = 0x9e37_79b9_7f4a_7c15u64;
    assert(a != b ==> a ^ ((p << 17) | (p >> 47)) != b ^ ((p << 17) | (p >> 47))) by (bit_vector);
    assert(p != q ==> a ^ ((p << 17) | (p >> 47)) != a ^ ((q << 17) | (q >> 47))) by (bit_vector)
        requires
            p <= 0xFFFF_FFFF,
            q <= 0xFFFF_FFFF,
    ;
    assert(p != q ==> none ^ ((p << 17) | (p >> 47)) != none ^ ((q << 17) | (q >> 47)))
        by (bit_vector)
        requires
            p <= 0xFFFF_FFFF,
            q <= 0xFFFF_FFFF,
    ;
}

/// The step from state to state treats each bit for itself, as xorshift does: what it makes of
/// the bits in which two states differ is what their next states differ in. So no two states
/// have the same next one. The lowest bit alone goes to the bits 0, 6, 13, 17, 23 and 30.
pub proof fn law_no_two_states_meet(x: u64, y: u64)
    ensures
        next_state(x ^ y) == next_state(x) ^ next_state(y),
        next_state(x) == next_state(y) ==> x == y,
        next_state(1) == 0x4082_2041,
{
    let a = x ^ (x << 13);
    let c = y ^ (y << 13);
    let b = a ^ (a >> 7);
    let d = c ^ (c >> 7);
    let z = x ^ y;
    let g = z ^ (z << 13);
    let k = g ^ (g >> 7);
    assert(((x ^ y) ^ ((x ^ y) << 13)) == (x ^ (x << 13)) ^ (y ^ (y << 13))) by (bit_vector);
    assert(((a ^ c) ^ ((a ^ c) >> 7)) == (a ^ (a >> 7)) ^ (c ^ (c >> 7))) by (bit_vector);
    assert(((b ^ d) ^ ((b ^ d) << 17)) == (b ^ (b << 17)) ^ (d ^ (d << 17))) by (bit_vector);
    assert(g == a ^ c && k == b ^ d);
    assert((x ^ (x << 13)) == (y ^ (y << 13)) ==> x == y) by (bit_vector);
    assert((a ^ (a >> 7)) == (c ^ (c >> 7)) ==> a == c) by (bit_vector);
    assert((b ^ (b << 17)) == (d ^ (d << 17)) ==> b == d) by (bit_vector);
    assert({
        let e = 1u64 ^ (1u64 << 13);
        let f = e ^ (e >> 7);
        f ^ (f << 17) == 0x4082_2041
    }) by (bit_vector);
}

/// Starting with the system is to be set up as long as it has not been, and once it has been
/// it stays so.
pub proof fn law_a_failed_setup_is_tried_again(initialized: bool, ok: bool)
    ensures
        autostart_wanted(initialized) <==> !initialized,
        autostart_after(initialized, ok) <==> initialized || ok,
{
}

} // verus!
