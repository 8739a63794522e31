//! Command-line configuration for the simulation: grid size, display scale,
//! frame saving, and an optional bound on the number of generations.
//!
//! `Config::build` consumes the raw argument list (the first entry is the
//! executable name and is skipped). `spec_build` is the full specification
//! of that parse: which flag sequences are accepted, what configuration they
//! produce, and which error every rejected sequence yields.

use vstd::prelude::*;

verus! {

/// The options a caller may pass on the command line.
pub struct Config {
    pub width: u32,
    pub height: u32,
    pub scale: u32,
    pub save_frames: bool,
    pub max_iterations: Option<u32>,
}

/// Why an argument list was rejected: an unrecognized flag (carried along
/// for reporting), a value flag at the end of the list, or a value that is
/// not a decimal number a `u32` can hold.
#[derive(Debug)]
pub enum ConfigError {
    UnknownOption(String),
    MissingValue,
    UnparsableValue,
}

/// A decimal digit.
pub open spec fn is_digit(c: char) -> bool {
    '0' as int <= c as int && c as int <= '9' as int
}

/// The value of one decimal digit.
pub open spec fn digit_val(c: char) -> int {
    c as int - '0' as int
}

/// A non-empty string of decimal digits and nothing else.
pub open spec fn is_decimal(s: Seq<char>) -> bool {
    s.len() > 0 && (forall|i: int| 0 <= i < s.len() ==> is_digit(s[i]))
}

/// The number a digit string denotes, most significant digit first.
pub open spec fn decimal_val(s: Seq<char>) -> int
    decreases s.len(),
{
    if s.len() == 0 {
        0
    } else {
        decimal_val(s.drop_last()) * 10 + digit_val(s.last())
    }
}

/// Whether a string is a decimal number that fits in a `u32`.
pub open spec fn parses_to_u32(s: Seq<char>) -> bool {
    is_decimal(s) && decimal_val(s) <= u32::MAX
}

/// Appending a digit multiplies the value so far by ten.
proof fn lemma_decimal_extend(s: Seq<char>, i: int)
    requires
        0 <= i < s.len(),
    ensures
        decimal_val(s.subrange(0, i + 1)) == decimal_val(s.subrange(0, i)) * 10 + digit_val(s[i]),
{
    let t = s.subrange(0, i + 1);
    assert(t.drop_last() =~= s.subrange(0, i));
    assert(t.last() == s[i]);
}

/// A digit string denotes a nonnegative number.
proof fn lemma_decimal_nonneg(s: Seq<char>)
    requires
        forall|i: int| 0 <= i < s.len() ==> is_digit(s[i]),
    ensures
        decimal_val(s) >= 0,
    decreases s.len(),
{
    if s.len() > 0 {
        lemma_decimal_nonneg(s.drop_last());
        assert(decimal_val(s.drop_last()) * 10 >= 0) by (nonlinear_arith)
            requires
                decimal_val(s.drop_last()) >= 0,
        ;
    }
}

/// A prefix of a digit string never denotes more than the whole string.
proof fn lemma_decimal_prefix_le(s: Seq<char>, i: int)
    requires
        0 <= i <= s.len(),
        forall|j: int| 0 <= j < s.len() ==> is_digit(s[j]),
    ensures
        decimal_val(s.subrange(0, i)) <= decimal_val(s),
    decreases s.len() - i,
{
    if i == s.len() {
        assert(s.subrange(0, i) =~= s);
    } else {
        lemma_decimal_extend(s, i);
        assert(forall|j: int|
            0 <= j < s.subrange(0, i).len() ==> is_digit(s.subrange(0, i)[j]));
        lemma_decimal_nonneg(s.subrange(0, i));
        assert(decimal_val(s.subrange(0, i)) * 10 >= decimal_val(s.subrange(0, i)))
            by (nonlinear_arith)
            requires
                decimal_val(s.subrange(0, i)) >= 0,
        ;
        lemma_decimal_prefix_le(s, i + 1);
    }
}

/// Reads a whole string as a decimal `u32`: `Some` exactly for non-empty
/// all-digit strings whose value fits.
fn parse_u32(s: &str) -> (r: Option<u32>)
    ensures
        parses_to_u32(s@) ==> r == Some((decimal_val(s@) as u32)),
        !parses_to_u32(s@) ==> r is None,
{
    let n = s.unicode_len();
    if n == 0 {
        return None;
    }
    let mut val: u64 = 0;
    let mut i: usize = 0;
    while i < n
        invariant
            0 < n,
            n == s@.len(),
            i <= n,
            forall|j: int| 0 <= j < i ==> is_digit(s@[j]),
            val == decimal_val(s@.subrange(0, i as int)),
            val <= u32::MAX as u64,
        decreases n - i,
    {
        let c = s.get_char(i);
        let u = c as u32;
        if u < 48 || u > 57 {
            assert(!is_digit(s@[i as int]));
            return None;
        }
        let d = (u - 48) as u64;
        proof {
            lemma_decimal_extend(s@, i as int);
        }
        val = val * 10 + d;
        if val > u32::MAX as u64 {
            proof {
                if parses_to_u32(s@) {
                    lemma_decimal_prefix_le(s@, i as int + 1);
                }
            }
            return None;
        }
        i += 1;
    }
    proof {
        assert(s@.subrange(0, n as int) =~= s@);
    }
    Some(val as u32)
}

/// The default configuration, before any flag is read.
pub open spec fn default_config() -> Config {
    Config { width: 200, height: 100, scale: 4, save_frames: false, max_iterations: None }
}

/// What reading the value of a flag at position `i` yields: the position is
/// past the end (the flag was last), a number, or a rejected string.
pub open spec fn spec_parse_next(args: Seq<String>, i: int) -> Result<u32, ConfigError> {
    if i >= args.len() {
        Err(ConfigError::MissingValue)
    } else if parses_to_u32(args[i]@) {
        Ok((decimal_val(args[i]@) as u32))
    } else {
        Err(ConfigError::UnparsableValue)
    }
}

/// The parse of the arguments from position `i` on, given the configuration
/// built so far: each recognized flag updates its field (value flags consume
/// the following argument), the first offending argument decides the error.
pub open spec fn parse_rest(args: Seq<String>, i: int, c: Config) -> Result<Config, ConfigError>
    decreases args.len() - i,
{
    if i >= args.len() {
        Ok(c)
    } else if args[i]@ == "--width"@ {
        match spec_parse_next(args, i + 1) {
            Ok(v) => parse_rest(
                args,
                i + 2,
                Config {
                    width: v,
                    height: c.height,
                    scale: c.scale,
                    save_frames: c.save_frames,
                    max_iterations: c.max_iterations,
                },
            ),
            Err(e) => Err(e),
        }
    } else if args[i]@ == "--height"@ {
        match spec_parse_next(args, i + 1) {
            Ok(v) => parse_rest(
                args,
                i + 2,
                Config {
                    width: c.width,
                    height: v,
                    scale: c.scale,
                    save_frames: c.save_frames,
                    max_iterations: c.max_iterations,
                },
            ),
            Err(e) => Err(e),
        }
    } else if args[i]@ == "--scale"@ {
        match spec_parse_next(args, i + 1) {
            Ok(v) => parse_rest(
                args,
                i + 2,
                Config {
                    width: c.width,
                    height: c.height,
                    scale: v,
                    save_frames: c.save_frames,
                    max_iterations: c.max_iterations,
                },
            ),
            Err(e) => Err(e),
        }
    } else if args[i]@ == "--max-iterations"@ {
        match spec_parse_next(args, i + 1) {
            Ok(v) => parse_rest(
                args,
                i + 2,
                Config {
                    width: c.width,
                    height: c.height,
                    scale: c.scale,
                    save_frames: c.save_frames,
                    max_iterations: Some(v),
                },
            ),
            Err(e) => Err(e),
        }
    } else if args[i]@ == "--save-frames"@ {
        parse_rest(
            args,
            i + 1,
            Config {
                width: c.width,
                height: c.height,
                scale: c.scale,
                save_frames: true,
                max_iterations: c.max_iterations,
            },
        )
    } else {
        Err(ConfigError::UnknownOption(args[i]))
    }
}

/// The full parse: defaults, then every argument after the executable name.
pub open spec fn spec_build(args: Seq<String>) -> Result<Config, ConfigError> {
    parse_rest(args, 1, default_config())
}

impl Config {
    /// Parses the command line, exactly as `spec_build` describes: flags in
    /// any order and repetition, later values overriding earlier ones, and
    /// an error for the first unknown flag, missing value or bad number.
    pub fn build(args: &[String]) -> (r: Result<Config, ConfigError>)
        ensures
            r == spec_build(args@),
    {
        let flag_width = String::from_str("--width");
        let flag_height = String::from_str("--height");
        let flag_scale = String::from_str("--scale");
        let flag_max = String::from_str("--max-iterations");
        let flag_save = String::from_str("--save-frames");
        let mut config = Config {
            width: 200,
            height: 100,
            scale: 4,
            save_frames: false,
            max_iterations: None,
        };
        let mut i: usize = 1;
        while i < args.len()
            invariant
                1 <= i,
                flag_width@ == "--width"@,
                flag_height@ == "--height"@,
                flag_scale@ == "--scale"@,
                flag_max@ == "--max-iterations"@,
                flag_save@ == "--save-frames"@,
                spec_build(args@) == parse_rest(args@, i as int, config),
            decreases args@.len() - i,
        {
            let arg = &args[i];
            if *arg == flag_width {
                match Self::parse_next(args, i + 1) {
                    Ok(v) => {
                        config.width = v;
                        i += 2;
                    },
                    Err(e) => {
                        return Err(e);
                    },
                }
            } else if *arg == flag_height {
                match Self::parse_next(args, i + 1) {
                    Ok(v) => {
                        config.height = v;
                        i += 2;
                    },
                    Err(e) => {
                        return Err(e);
                    },
                }
            } else if *arg == flag_scale {
                match Self::parse_next(args, i + 1) {
                    Ok(v) => {
                        config.scale = v;
                        i += 2;
                    },
                    Err(e) => {
                        return Err(e);
                    },
                }
            } else if *arg == flag_max {
                match Self::parse_next(args, i + 1) {
                    Ok(v) => {
                        config.max_iterations = Some(v);
                        i += 2;
                    },
                    Err(e) => {
                        return Err(e);
                    },
                }
            } else if *arg == flag_save {
                config.save_frames = true;
                i += 1;
            } else {
                return Err(ConfigError::UnknownOption(arg.clone()));
            }
        }
        Ok(config)
    }

    /// Reads the value belonging to a flag, as `spec_parse_next` describes.
    fn parse_next(args: &[String], i: usize) -> (r: Result<u32, ConfigError>)
        ensures
            r == spec_parse_next(args@, i as int),
    {
        if i >= args.len() {
            return Err(ConfigError::MissingValue);
        }
        match parse_u32(args[i].as_str()) {
            Some(v) => Ok(v),
            None => Err(ConfigError::UnparsableValue),
        }
    }
}

} // verus!
