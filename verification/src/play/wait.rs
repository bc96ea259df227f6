//! The pause between English and Russian playback that waits for a key:
//! which keys are offered, and what each key press does.
use vstd::prelude::*;

use crate::text::push_char;

verus! {

/// What a key press does while waiting.
#[derive(Debug, Clone, Copy, PartialEq, Eq)]
pub enum KeyStep {
    /// The space bar: stop waiting.
    Continue,
    /// The replay key: run the replay step, then keep waiting.
    Replay,
    /// Any other key: keep waiting.
    Ignore,
}

/// What pressing `ch` does when `repeat_key` (if any) replays and
/// `has_repeat` says whether there is a replay step.
pub open spec fn key_step_spec(ch: char, repeat_key: Option<char>, has_repeat: bool) -> KeyStep {
    if ch == ' ' {
        KeyStep::Continue
    } else if repeat_key == Some(ch) && has_repeat {
        KeyStep::Replay
    } else {
        KeyStep::Ignore
    }
}

/// Decide what pressing `ch` does (see [`key_step_spec`]).
pub fn key_step(ch: char, repeat_key: Option<char>, has_repeat: bool) -> (r: KeyStep)
    ensures
        r == key_step_spec(ch, repeat_key, has_repeat),
{
    if ch == ' ' {
        return KeyStep::Continue;
    }
    match repeat_key {
        Some(k) => if k == ch && has_repeat {
            KeyStep::Replay
        } else {
            KeyStep::Ignore
        },
        None => KeyStep::Ignore,
    }
}

/// The line that says which keys are waited on.
pub open spec fn wait_prompt_spec(repeat_key: Option<char>) -> Seq<char> {
    match repeat_key {
        Some(k) => "[space] continue, ["@ + seq![k] + "] replay"@,
        None => "[space] continue"@,
    }
}

/// The line that says which keys are waited on, e.g. `[space] continue, [r] replay`.
pub fn wait_prompt(repeat_key: Option<char>) -> (r: String)
    ensures
        r@ == wait_prompt_spec(repeat_key),
{
    match repeat_key {
        Some(k) => {
            let mut m = "[space] continue, [".to_owned();
            push_char(&mut m, k);
            m.append("] replay");
            assert(m@ =~= "[space] continue, ["@ + seq![k] + "] replay"@);
            m
        },
        None => "[space] continue".to_owned(),
    }
}

/// How many times the replay step runs while waiting on the key presses
/// `keys`: each key is taken in turn until one stops the wait.
pub open spec fn replays(keys: Seq<char>, repeat_key: Option<char>, has_repeat: bool) -> nat
    decreases keys.len(),
{
    if keys.len() == 0 {
        0
    } else {
        match key_step_spec(keys[0], repeat_key, has_repeat) {
            KeyStep::Continue => 0,
            KeyStep::Replay => 1 + replays(keys.drop_first(), repeat_key, has_repeat),
            KeyStep::Ignore => replays(keys.drop_first(), repeat_key, has_repeat),
        }
    }
}

/// How many times `c` occurs in `s`.
pub open spec fn count_of(s: Seq<char>, c: char) -> nat
    decreases s.len(),
{
    if s.len() == 0 {
        0
    } else {
        (if s[0] == c {
            1nat
        } else {
            0nat
        }) + count_of(s.drop_first(), c)
    }
}

/// Waiting on a sequence of key presses whose first space is at `n`: the
/// wait stops at that space and at no key before it, and the replay step
/// runs once for each press of the replay key before it when there is a
/// replay step, and never otherwise; every other key is ignored.
pub proof fn law_wait_replays_each_repeat_key(
    keys: Seq<char>,
    repeat_key: Option<char>,
    has_repeat: bool,
    n: int,
)
    requires
        0 <= n < keys.len(),
        keys[n] == ' ',
        forall|j: int| 0 <= j < n ==> keys[j] != ' ',
    ensures
        key_step_spec(keys[n], repeat_key, has_repeat) == KeyStep::Continue,
        forall|j: int|
            0 <= j < n ==> #[trigger] key_step_spec(keys[j], repeat_key, has_repeat)
                != KeyStep::Continue,
        replays(keys, repeat_key, has_repeat) == if has_repeat && repeat_key is Some {
            count_of(keys.take(n), repeat_key->0)
        } else {
            0
        },
    decreases n,
{
    if n > 0 {
        let rest = keys.drop_first();
        assert forall|j: int| 0 <= j < n - 1 implies rest[j] != ' ' by {
            assert(rest[j] == keys[j + 1]);
        }
        law_wait_replays_each_repeat_key(rest, repeat_key, has_repeat, n - 1);
        assert(keys.take(n).drop_first() =~= rest.take(n - 1));
        assert(keys.take(n)[0] == keys[0]);
    } else {
        assert(keys.take(0) =~= Seq::<char>::empty());
    }
}

} // verus!
