//! The environment variables that switch kernels and tracing on.
use vstd::prelude::*;

verus! {

/// Whether the text of a variable means "on".
pub open spec fn is_on(text: Seq<char>) -> bool {
    ||| text == "1"@
    ||| text == "true"@
    ||| text == "TRUE"@
    ||| text == "yes"@
    ||| text == "YES"@
    ||| text == "on"@
    ||| text == "ON"@
}

/// The value of a variable of the environment: that of its first entry.
pub open spec fn variable(environment: Seq<(String, String)>, name: Seq<char>) -> Option<Seq<char>>
    decreases environment.len(),
{
    if environment.len() == 0 {
        None
    } else if environment[0].0@ == name {
        Some(environment[0].1@)
    } else {
        variable(environment.skip(1), name)
    }
}

/// Whether a variable is set to a text that means "on".
pub open spec fn switched_on(environment: Seq<(String, String)>, name: Seq<char>) -> bool {
    match variable(environment, name) {
        Some(text) => is_on(text),
        None => false,
    }
}

/// Decides [`is_on`].
pub fn text_is_on(text: &String) -> (r: bool)
    ensures
        r == is_on(text@),
{
    *text == String::from_str("1") || *text == String::from_str("true") || *text
        == String::from_str("TRUE") || *text == String::from_str("yes") || *text
        == String::from_str("YES") || *text == String::from_str("on") || *text
        == String::from_str("ON")
}

/// Decides [`switched_on`].
pub fn variable_is_on(environment: &Vec<(String, String)>, name: &str) -> (r: bool)
    ensures
        r == switched_on(environment@, name@),
{
    let wanted = String::from_str(name);
    let mut i: usize = 0;
    assert(environment@.skip(0) =~= environment@);
    while i < environment.len()
        invariant
            i <= environment@.len(),
            wanted@ == name@,
            variable(environment@, name@) == variable(environment@.skip(i as int), name@),
        decreases environment@.len() - i,
    {
        let entry = &environment[i];
        assert(environment@.skip(i as int).skip(1) =~= environment@.skip(i + 1));
        if entry.0 == wanted {
            return text_is_on(&entry.1);
        }
        i = i + 1;
    }
    false
}

/// Whether the tiled kernel may run prefill.
pub fn tiled_prefill_enabled(environment: &Vec<(String, String)>) -> (r: bool)
    ensures
        r == switched_on(environment@, "PI_CANDLE_QUANT_CUTILE_TILED"@),
{
    variable_is_on(environment, "PI_CANDLE_QUANT_CUTILE_TILED")
}

/// Whether the matrix unit kernel may run prefill.
pub fn mmai_prefill_enabled(environment: &Vec<(String, String)>) -> (r: bool)
    ensures
        r == switched_on(environment@, "PI_CANDLE_QUANT_CUTILE_MMAI"@),
{
    variable_is_on(environment, "PI_CANDLE_QUANT_CUTILE_MMAI")
}

/// Whether Q4_K decode may take four rows per program.
pub fn q4k_b1_rows4_enabled(environment: &Vec<(String, String)>) -> (r: bool)
    ensures
        r == switched_on(environment@, "PI_CANDLE_QUANT_CUTILE_Q4K_B1_ROWS4"@),
{
    variable_is_on(environment, "PI_CANDLE_QUANT_CUTILE_Q4K_B1_ROWS4")
}

/// Whether Q6_K decode may take four rows per program.
pub fn q6k_b1_rows4_enabled(environment: &Vec<(String, String)>) -> (r: bool)
    ensures
        r == switched_on(environment@, "PI_CANDLE_QUANT_CUTILE_Q6K_B1_ROWS4"@),
{
    variable_is_on(environment, "PI_CANDLE_QUANT_CUTILE_Q6K_B1_ROWS4")
}

/// Whether Q6_K decode may take eight rows per program.
pub fn q6k_b1_rows8_enabled(environment: &Vec<(String, String)>) -> (r: bool)
    ensures
        r == switched_on(environment@, "PI_CANDLE_QUANT_CUTILE_Q6K_B1_ROWS8"@),
{
    variable_is_on(environment, "PI_CANDLE_QUANT_CUTILE_Q6K_B1_ROWS8")
}

/// Whether launches are timed and the timings printed.
pub fn cutile_trace_enabled(environment: &Vec<(String, String)>) -> (r: bool)
    ensures
        r == switched_on(environment@, "PI_CANDLE_QUANT_TRACE"@),
{
    variable_is_on(environment, "PI_CANDLE_QUANT_TRACE")
}

/// Which kernels may be picked besides the plain ones.
#[derive(Debug, Clone, Copy, PartialEq, Eq, Structural)]
pub struct Settings {
    pub tiled_prefill: bool,
    pub mmai_prefill: bool,
    pub q4k_b1_rows4: bool,
    pub q6k_b1_rows4: bool,
    pub q6k_b1_rows8: bool,
}

/// Reads the settings from the environment.
pub fn read_settings(environment: &Vec<(String, String)>) -> (r: Settings)
    ensures
        r.tiled_prefill == switched_on(environment@, "PI_CANDLE_QUANT_CUTILE_TILED"@),
        r.mmai_prefill == switched_on(environment@, "PI_CANDLE_QUANT_CUTILE_MMAI"@),
        r.q4k_b1_rows4 == switched_on(environment@, "PI_CANDLE_QUANT_CUTILE_Q4K_B1_ROWS4"@),
        r.q6k_b1_rows4 == switched_on(environment@, "PI_CANDLE_QUANT_CUTILE_Q6K_B1_ROWS4"@),
        r.q6k_b1_rows8 == switched_on(environment@, "PI_CANDLE_QUANT_CUTILE_Q6K_B1_ROWS8"@),
{
    Settings {
        tiled_prefill: tiled_prefill_enabled(environment),
        mmai_prefill: mmai_prefill_enabled(environment),
        q4k_b1_rows4: q4k_b1_rows4_enabled(environment),
        q6k_b1_rows4: q6k_b1_rows4_enabled(environment),
        q6k_b1_rows8: q6k_b1_rows8_enabled(environment),
    }
}

/// Exactly seven texts mean "on".
pub proof fn law_texts_that_mean_on(text: Seq<char>)
    ensures
        is_on(text) <==> set!["1"@, "true"@, "TRUE"@, "yes"@, "YES"@, "on"@, "ON"@].contains(text),
{
}

/// A variable is on exactly if its first entry is.
pub proof fn law_first_entry_decides(environment: Seq<(String, String)>, name: Seq<char>)
    ensures
        switched_on(environment, name) <==> exists|i: int|
            0 <= i < environment.len() && (#[trigger] environment[i]).0@ == name && is_on(
                environment[i].1@,
            ) && forall|j: int| 0 <= j < i ==> (#[trigger] environment[j]).0@ != name,
    decreases environment.len(),
{
    if environment.len() > 0 {
        let rest = environment.skip(1);
        if environment[0].0@ == name {
        } else {
            law_first_entry_decides(rest, name);
            if switched_on(rest, name) {
                let i = choose|i: int|
                    0 <= i < rest.len() && (#[trigger] rest[i]).0@ == name && is_on(rest[i].1@)
                        && forall|j: int| 0 <= j < i ==> (#[trigger] rest[j]).0@ != name;
                assert(environment[i + 1] == rest[i]);
                assert forall|j: int| 0 <= j < i + 1 implies (#[trigger] environment[j]).0@
                    != name by {
                    if j > 0 {
                        assert(rest[j - 1] == environment[j]);
                    }
                }
            } else {
                assert forall|i: int|
                    0 <= i < environment.len() && (#[trigger] environment[i]).0@ == name && is_on(
                        environment[i].1@,
                    ) implies !(forall|j: int|
                    0 <= j < i ==> (#[trigger] environment[j]).0@ != name) by {
                    if forall|j: int| 0 <= j < i ==> (#[trigger] environment[j]).0@ != name {
                        assert(rest[i - 1] == environment[i]);
                        assert forall|j: int| 0 <= j < i - 1 implies (#[trigger] rest[j]).0@
                            != name by {
                            assert(environment[j + 1] == rest[j]);
                        }
                        assert(false);
                    }
                }
            }
        }
    }
}

} // verus!
