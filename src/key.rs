//! Keyboard decisions: the modifier flags a character implies, the events
//! that pressing, tapping and typing post, and their timing.
use vstd::prelude::*;
use rand::Rng;
use crate::geometry::{lemma_round_div_bounds, round_div, round_div_exec};

verus! {

/// Device-independent modifier flags.
#[derive(Clone, Copy, Debug, PartialEq, Eq, Structural)]
pub enum Flag {
    Shift,
    Control,
    Alt,
    Meta,
    Help,
}

/// Device-independent key codes.
#[derive(Clone, Copy, Debug, PartialEq, Eq, Structural)]
pub enum KeyCode {
    F1,
    F2,
    F3,
    F4,
    F5,
    F6,
    F7,
    F8,
    F9,
    F10,
    F11,
    F12,
    F13,
    F14,
    F15,
    F16,
    F17,
    F18,
    F19,
    F20,
    F21,
    F22,
    F23,
    F24,
    LeftArrow,
    Control,
    RightArrow,
    DownArrow,
    End,
    UpArrow,
    PageUp,
    Alt,
    Return,
    PageDown,
    Delete,
    Home,
    Escape,
    Backspace,
    Meta,
    CapsLock,
    Shift,
    Tab,
    Space,
}

/// A key given either as the character it types or as a named key.
#[derive(Clone, Copy, Debug, PartialEq, Eq, Structural)]
pub enum Key {
    Char(char),
    Named(KeyCode),
}

/// The platform whose input conventions apply.
#[derive(Clone, Copy, Debug, PartialEq, Eq, Structural)]
pub enum Platform {
    /// Characters are injected as Unicode; modifiers travel as event flags.
    MacOs,
    /// Modifiers are pressed as keys of their own; characters go as Unicode.
    Windows,
    /// Modifiers are pressed as keys of their own; characters go as key
    /// symbols, so some imply Shift.
    Linux,
}

/// A key that can be pressed.
pub trait KeyCodeConvertible {
    spec fn spec_key(&self) -> Key;

    fn key(&self) -> (r: Key)
        ensures
            r == self.spec_key(),
    ;
}

/// A key given by the character it types.
#[derive(Clone, Copy, Debug)]
pub struct Character(pub char);

/// A key given by its device-independent code.
#[derive(Clone, Copy, Debug)]
pub struct Code(pub KeyCode);

impl KeyCodeConvertible for Character {
    open spec fn spec_key(&self) -> Key {
        Key::Char(self.0)
    }

    fn key(&self) -> (r: Key) {
        Key::Char(self.0)
    }
}

impl KeyCodeConvertible for Code {
    open spec fn spec_key(&self) -> Key {
        Key::Named(self.0)
    }

    fn key(&self) -> (r: Key) {
        Key::Named(self.0)
    }
}

/// Modifier flags carried on a key event.
#[derive(Clone, Copy, Debug, PartialEq, Eq, Structural)]
pub struct FlagMask {
    pub shift: bool,
    pub control: bool,
    pub alt: bool,
    pub meta: bool,
    pub help: bool,
}

pub open spec fn mask_of(flags: Seq<Flag>) -> FlagMask {
    FlagMask {
        shift: flags.contains(Flag::Shift),
        control: flags.contains(Flag::Control),
        alt: flags.contains(Flag::Alt),
        meta: flags.contains(Flag::Meta),
        help: flags.contains(Flag::Help),
    }
}

pub open spec fn no_flags() -> FlagMask {
    FlagMask { shift: false, control: false, alt: false, meta: false, help: false }
}

/// One event for the keyboard backend to post, or a pause between events.
#[derive(Clone, Copy, Debug, PartialEq, Eq, Structural)]
pub enum KeyEvent {
    /// A modifier key pressed or released on its own.
    Modifier { flag: Flag, down: bool },
    /// The key itself, with the modifier flags the event carries.
    Press { key: Key, down: bool, flags: FlagMask },
    Sleep(u64),
}

/// Whether `c` has the Unicode Uppercase property.
pub uninterp spec fn uppercase(c: char) -> bool;

/// Relies on `char::is_uppercase`: true when `c` has the Unicode Uppercase
/// property.
#[verifier::external_body]
fn is_uppercase(c: char) -> (r: bool)
    ensures
        r == uppercase(c),
{
    c.is_uppercase()
}

/// Relies on rand's `Rng::gen_range(low, high)` on the thread-local
/// generator: a value in `[low, high)`; it panics when `low >= high`.
#[verifier::external_body]
fn random_below(bound: u64) -> (r: u64)
    requires
        bound > 0,
    ensures
        r < bound,
{
    rand::thread_rng().gen_range(0, bound)
}

/// The punctuation that is typed with Shift on a key-symbol keyboard.
pub open spec fn shifted_punctuation(c: char) -> bool {
    c == '!' || c == '#' || c == '$' || c == '%' || c == '&' || c == '(' || c == ')' || c == '*'
        || c == '+' || c == ':' || c == '<' || c == '>' || c == '?' || c == '@' || c == '{' || c
        == '|' || c == '}' || c == '~' || c == '_' || c == '^' || c == '"'
}

/// The flags that typing `c` implies: Shift for uppercase letters and shifted
/// punctuation on Linux, none elsewhere.
pub open spec fn char_flags(c: char, platform: Platform) -> Seq<Flag> {
    if platform == Platform::Linux && (uppercase(c) || shifted_punctuation(c)) {
        seq![Flag::Shift]
    } else {
        seq![]
    }
}

pub open spec fn key_flags(key: Key, platform: Platform) -> Seq<Flag> {
    match key {
        Key::Char(c) => char_flags(c, platform),
        Key::Named(_) => seq![],
    }
}

/// The caller's flags, then each implied flag that the caller did not give.
pub open spec fn merged_flags(flags: Seq<Flag>, implied: Seq<Flag>) -> Seq<Flag>
    decreases implied.len(),
{
    if implied.len() == 0 {
        flags
    } else {
        let prev = merged_flags(flags, implied.drop_last());
        if flags.contains(implied.last()) {
            prev
        } else {
            prev.push(implied.last())
        }
    }
}

/// Each modifier pressed or released in turn, with a pause after each.
pub open spec fn modifier_events(flags: Seq<Flag>, down: bool, delay_ms: u64) -> Seq<KeyEvent>
    decreases flags.len(),
{
    if flags.len() == 0 {
        seq![]
    } else {
        modifier_events(flags.drop_last(), down, delay_ms) + seq![
            KeyEvent::Modifier { flag: flags.last(), down },
            KeyEvent::Sleep(delay_ms),
        ]
    }
}

/// The events of pressing (`down`) or releasing `key` with `flags`.
pub open spec fn toggle_events(
    key: Key,
    down: bool,
    flags: Seq<Flag>,
    modifier_delay_ms: u64,
    platform: Platform,
) -> Seq<KeyEvent> {
    let all = merged_flags(flags, key_flags(key, platform));
    if platform == Platform::MacOs {
        seq![KeyEvent::Press { key, down, flags: mask_of(all) }]
    } else {
        modifier_events(all, down, modifier_delay_ms) + seq![
            KeyEvent::Press { key, down, flags: no_flags() },
        ]
    }
}

pub open spec fn tap_events(
    key: Key,
    flags: Seq<Flag>,
    delay_ms: u64,
    modifier_delay_ms: u64,
    platform: Platform,
) -> Seq<KeyEvent> {
    toggle_events(key, true, flags, modifier_delay_ms, platform) + seq![KeyEvent::Sleep(delay_ms)]
        + toggle_events(key, false, flags, modifier_delay_ms, platform)
}

fn contains_flag(flags: &[Flag], f: Flag) -> (r: bool)
    ensures
        r == flags@.contains(f),
{
    let mut i: usize = 0;
    while i < flags.len()
        invariant
            i <= flags@.len(),
            forall|k: int| 0 <= k < i ==> flags@[k] != f,
        decreases flags@.len() - i,
    {
        if flags[i] == f {
            return true;
        }
        i = i + 1;
    }
    false
}

/// The flags that typing `c` implies on `platform`.
pub fn flags_for_char(c: char, platform: Platform) -> (r: Vec<Flag>)
    ensures
        r@ == char_flags(c, platform),
{
    let mut r = Vec::new();
    if platform == Platform::Linux {
        let punct = c == '!' || c == '#' || c == '$' || c == '%' || c == '&' || c == '(' || c
            == ')' || c == '*' || c == '+' || c == ':' || c == '<' || c == '>' || c == '?' || c
            == '@' || c == '{' || c == '|' || c == '}' || c == '~' || c == '_' || c == '^' || c
            == '"';
        if is_uppercase(c) || punct {
            r.push(Flag::Shift);
        }
    }
    assert(r@ =~= char_flags(c, platform));
    r
}

fn flags_for_key(key: Key, platform: Platform) -> (r: Vec<Flag>)
    ensures
        r@ == key_flags(key, platform),
{
    match key {
        Key::Char(c) => flags_for_char(c, platform),
        Key::Named(_) => {
            let r = Vec::new();
            assert(r@ =~= key_flags(key, platform));
            r
        },
    }
}

/// The events of holding down (`down`) or releasing `key`. The caller's
/// `flags` come first, then each flag the key's character implies that the
/// caller did not give. On macOS the flags travel on the key's event; on
/// the other platforms each modifier is pressed or released on its own,
/// followed by a pause of `modifier_delay_ms`, before the key.
pub fn toggle<T: KeyCodeConvertible>(
    key: &T,
    down: bool,
    flags: &[Flag],
    modifier_delay_ms: u64,
    platform: Platform,
) -> (r: Vec<KeyEvent>)
    ensures
        r@ == toggle_events(key.spec_key(), down, flags@, modifier_delay_ms, platform),
{
    toggle_key(key.key(), down, flags, modifier_delay_ms, platform)
}

fn toggle_key(key: Key, down: bool, flags: &[Flag], modifier_delay_ms: u64, platform: Platform) -> (r:
    Vec<KeyEvent>)
    ensures
        r@ == toggle_events(key, down, flags@, modifier_delay_ms, platform),
{
    let implied = flags_for_key(key, platform);
    let mut all: Vec<Flag> = Vec::new();
    let mut i: usize = 0;
    while i < flags.len()
        invariant
            i <= flags@.len(),
            all@ == flags@.subrange(0, i as int),
        decreases flags@.len() - i,
    {
        all.push(flags[i]);
        i = i + 1;
        assert(all@ =~= flags@.subrange(0, i as int));
    }
    assert(flags@.subrange(0, flags@.len() as int) =~= flags@);
    let mut j: usize = 0;
    while j < implied.len()
        invariant
            j <= implied@.len(),
            all@ == merged_flags(flags@, implied@.subrange(0, j as int)),
        decreases implied@.len() - j,
    {
        let f = implied[j];
        assert(implied@.subrange(0, j + 1).drop_last() =~= implied@.subrange(0, j as int));
        if !contains_flag(flags, f) {
            all.push(f);
        }
        j = j + 1;
    }
    assert(implied@.subrange(0, implied@.len() as int) =~= implied@);
    let mut r: Vec<KeyEvent> = Vec::new();
    if platform == Platform::MacOs {
        let mask = FlagMask {
            shift: contains_flag(all.as_slice(), Flag::Shift),
            control: contains_flag(all.as_slice(), Flag::Control),
            alt: contains_flag(all.as_slice(), Flag::Alt),
            meta: contains_flag(all.as_slice(), Flag::Meta),
            help: contains_flag(all.as_slice(), Flag::Help),
        };
        r.push(KeyEvent::Press { key, down, flags: mask });
        assert(r@ =~= toggle_events(key, down, flags@, modifier_delay_ms, platform));
        return r;
    }
    let mut k: usize = 0;
    while k < all.len()
        invariant
            k <= all@.len(),
            r@ == modifier_events(all@.subrange(0, k as int), down, modifier_delay_ms),
        decreases all@.len() - k,
    {
        assert(all@.subrange(0, k + 1).drop_last() =~= all@.subrange(0, k as int));
        r.push(KeyEvent::Modifier { flag: all[k], down });
        r.push(KeyEvent::Sleep(modifier_delay_ms));
        k = k + 1;
        assert(r@ =~= modifier_events(all@.subrange(0, k as int), down, modifier_delay_ms));
    }
    assert(all@.subrange(0, all@.len() as int) =~= all@);
    r.push(KeyEvent::Press { key, down, flags: FlagMask { shift: false, control: false, alt: false, meta: false, help: false } });
    assert(r@ =~= toggle_events(key, down, flags@, modifier_delay_ms, platform));
    r
}

/// Hold down `key`, pause `delay_ms`, release it, with the same flags.
pub fn tap<T: KeyCodeConvertible>(
    key: &T,
    flags: &[Flag],
    delay_ms: u64,
    modifier_delay_ms: u64,
    platform: Platform,
) -> (r: Vec<KeyEvent>)
    ensures
        r@ == tap_events(key.spec_key(), flags@, delay_ms, modifier_delay_ms, platform),
{
    tap_key(key.key(), flags, delay_ms, modifier_delay_ms, platform)
}

fn tap_key(key: Key, flags: &[Flag], delay_ms: u64, modifier_delay_ms: u64, platform: Platform) -> (r:
    Vec<KeyEvent>)
    ensures
        r@ == tap_events(key, flags@, delay_ms, modifier_delay_ms, platform),
{
    let mut r = toggle_key(key, true, flags, modifier_delay_ms, platform);
    r.push(KeyEvent::Sleep(delay_ms));
    let mut up = toggle_key(key, false, flags, modifier_delay_ms, platform);
    r.append(&mut up);
    r
}

/// Milliseconds per character at `wpm` words per minute, five characters
/// to the word, rounded; 0 ("as fast as possible") when `wpm` is 0.
pub open spec fn ms_per_character(wpm: int) -> int {
    if wpm == 0 {
        0
    } else {
        round_div(12000, wpm)
    }
}

/// Half a character's time, rounded: the hold of each key and the pause
/// after it.
pub open spec fn ms_per_stroke(wpm: int) -> int {
    round_div(ms_per_character(wpm), 2)
}

/// The exclusive bound of the random extra pause after a character: the
/// noise, in hundredths, times a character's time, rounded.
pub open spec fn jitter_bound(wpm: int, noise_hundredths: int) -> int {
    round_div(noise_hundredths * ms_per_character(wpm), 100)
}

/// The events that type `c`: a tap held for a stroke, then a pause of a
/// stroke plus `jitter`.
pub open spec fn char_events(c: char, flags: Seq<Flag>, wpm: int, jitter: u32, platform: Platform) -> Seq<
    KeyEvent,
> {
    let s = ms_per_stroke(wpm) as u64;
    tap_events(Key::Char(c), flags, s, s, platform) + seq![
        KeyEvent::Sleep((s + jitter) as u64),
    ]
}

/// The events that type the first `n` characters of `text`, in order.
pub open spec fn typed_events(
    text: Seq<char>,
    flags: Seq<Flag>,
    wpm: int,
    jitter: Seq<u32>,
    platform: Platform,
    n: int,
) -> Seq<KeyEvent>
    decreases n,
{
    if n <= 0 {
        seq![]
    } else {
        typed_events(text, flags, wpm, jitter, platform, n - 1) + char_events(
            text[n - 1],
            flags,
            wpm,
            jitter[n - 1],
            platform,
        )
    }
}

/// Each extra pause is below the bound, or 0 when the bound is 0.
pub open spec fn valid_jitter(jitter: Seq<u32>, bound: int) -> bool {
    forall|i: int|
        0 <= i < jitter.len() ==> if bound > 0 {
            #[trigger] jitter[i] < bound
        } else {
            jitter[i] == 0
        }
}

fn character_timing(wpm: u32) -> (r: i128)
    ensures
        r == ms_per_character(wpm as int),
        0 <= r <= 12000,
{
    let per_char: i128 = if wpm == 0 {
        0
    } else {
        round_div_exec(12000, wpm as i128)
    };
    assert(0 <= per_char <= 12000) by (nonlinear_arith)
        requires
            per_char == 0 || (wpm >= 1 && per_char == (2 * 12000 + wpm) / (2 * wpm)),
    ;
    per_char
}

fn stroke_timing(wpm: u32) -> (r: u64)
    ensures
        r == ms_per_stroke(wpm as int),
        r <= 6000,
{
    let per_char = character_timing(wpm);
    let s = round_div_exec(per_char, 2);
    proof {
        lemma_round_div_bounds(per_char as int, 2);
    }
    s as u64
}

/// The events that type every character of `text` in order, at `wpm` words
/// per minute, with the given extra pause after each character.
pub fn type_string_with_jitter(
    text: &str,
    flags: &[Flag],
    wpm: u32,
    jitter: &Vec<u32>,
    platform: Platform,
) -> (r: Vec<KeyEvent>)
    requires
        jitter@.len() == text@.len(),
    ensures
        r@ == typed_events(text@, flags@, wpm as int, jitter@, platform, text@.len() as int),
{
    let s = stroke_timing(wpm);
    let n = text.unicode_len();
    let mut r: Vec<KeyEvent> = Vec::new();
    let mut i: usize = 0;
    while i < n
        invariant
            i <= n,
            n == text@.len(),
            jitter@.len() == n,
            s == ms_per_stroke(wpm as int),
            s <= 6000,
            r@ == typed_events(text@, flags@, wpm as int, jitter@, platform, i as int),
        decreases n - i,
    {
        let c = text.get_char(i);
        let mut t = tap_key(Key::Char(c), flags, s, s, platform);
        r.append(&mut t);
        r.push(KeyEvent::Sleep(s + jitter[i] as u64));
        i = i + 1;
        assert(r@ =~= typed_events(text@, flags@, wpm as int, jitter@, platform, i as int));
    }
    r
}

/// The events that type every character of `text` in order, at `wpm` words
/// per minute (as fast as possible when 0), each character followed by a
/// random extra pause below `noise_hundredths / 100` of a character's time.
pub fn type_string(text: &str, flags: &[Flag], wpm: u32, noise_hundredths: u16, platform: Platform) -> (r:
    Vec<KeyEvent>)
    ensures
        exists|jitter: Seq<u32>|
            {
                &&& jitter.len() == text@.len()
                &&& valid_jitter(jitter, jitter_bound(wpm as int, noise_hundredths as int))
                &&& r@ == typed_events(
                    text@,
                    flags@,
                    wpm as int,
                    jitter,
                    platform,
                    text@.len() as int,
                )
            },
{
    let per_char = character_timing(wpm);
    assert(0 <= noise_hundredths as i128 * per_char <= 0xffff * 12000) by (nonlinear_arith)
        requires
            0 <= per_char <= 12000,
            noise_hundredths <= 0xffff,
    ;
    let bound = round_div_exec(noise_hundredths as i128 * per_char, 100);
    assert(bound == jitter_bound(wpm as int, noise_hundredths as int));
    proof {
        lemma_round_div_bounds(noise_hundredths as i128 * per_char, 100);
    }
    assert(0 <= bound <= 0xffff * 12000);
    let n = text.unicode_len();
    let mut jitter: Vec<u32> = Vec::new();
    let mut i: usize = 0;
    while i < n
        invariant
            i <= n,
            jitter@.len() == i,
            0 <= bound <= 0xffff * 12000,
            valid_jitter(jitter@, bound as int),
        decreases n - i,
    {
        let j: u32 = if bound > 0 {
            random_below(bound as u64) as u32
        } else {
            0
        };
        jitter.push(j);
        i = i + 1;
    }
    type_string_with_jitter(text, flags, wpm, &jitter, platform)
}

} // verus!
