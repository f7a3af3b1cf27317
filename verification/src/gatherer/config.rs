//! `[Gatherer]` settings: four family multipliers and three switches. A
//! missing key keeps its default, and a bad value never replaces it: `parse`
//! hands back the config together with ready-to-log warnings.

use vstd::prelude::*;
use vstd::string::StringSliceAdditionalSpecFns;
use vstd::utf8::*;

use crate::ini::{lines, lines_spec, lines_view, lemma_lines_valid, line_valid, truthy, parse_bool, Line, SpecLine};
use crate::strings::{debug_quoted, debug_str, dec_spec, lemma_dec_ascii, lemma_ascii_encode, lit, push_dec, push_str, string_of, utf8_string};
use crate::text::{eq_ic, eq_ic_exec, parse_u32, parse_u32_at, push_all};
use crate::utf8_cuts::lemma_ascii_valid;

verus! {

/// Multipliers below this would zero out every yield and above it are almost
/// certainly a typo, so both are refused.
pub const MULT_MIN: u32 = 1;
pub const MULT_MAX: u32 = 100;

/// The four independent gather families.
#[derive(Debug, Clone, Copy, PartialEq, Eq, Structural)]
pub enum Family {
    Foraging,
    Logging,
    Mining,
    Ore,
}

#[derive(Debug, Clone, Copy, PartialEq, Eq, Structural)]
pub struct Config {
    /// Master switch.
    pub enabled: bool,
    /// Log the edits the hook would make and write nothing.
    pub dry_run: bool,
    /// Also log records that are not gather records.
    pub debug: bool,
    pub foraging: u32,
    pub logging: u32,
    pub mining: u32,
    pub ore: u32,
}

pub open spec fn default_config() -> Config {
    Config { enabled: true, dry_run: false, debug: false, foraging: 1, logging: 1, mining: 1, ore: 1 }
}

impl Default for Config {
    fn default() -> (r: Config)
        ensures
            r == default_config(),
    {
        Config { enabled: true, dry_run: false, debug: false, foraging: 1, logging: 1, mining: 1, ore: 1 }
    }
}

pub open spec fn mult_of(c: Config, family: Family) -> u32 {
    match family {
        Family::Foraging => c.foraging,
        Family::Logging => c.logging,
        Family::Mining => c.mining,
        Family::Ore => c.ore,
    }
}

pub open spec fn with_mult(c: Config, family: Family, n: u32) -> Config {
    match family {
        Family::Foraging => Config { foraging: n, ..c },
        Family::Logging => Config { logging: n, ..c },
        Family::Mining => Config { mining: n, ..c },
        Family::Ore => Config { ore: n, ..c },
    }
}

pub open spec fn vanilla(c: Config) -> bool {
    c.foraging <= 1 && c.logging <= 1 && c.mining <= 1 && c.ore <= 1
}

impl Config {
    /// The configured multiplier for a gather family; `1` leaves it alone.
    pub fn multiplier(&self, family: Family) -> (r: u32)
        ensures
            r == mult_of(*self, family),
    {
        match family {
            Family::Foraging => self.foraging,
            Family::Logging => self.logging,
            Family::Mining => self.mining,
            Family::Ore => self.ore,
        }
    }

    /// True if no family is multiplied, i.e. the hook would never write.
    pub fn all_vanilla(&self) -> (r: bool)
        ensures
            r == vanilla(*self),
    {
        self.foraging <= 1 && self.logging <= 1 && self.mining <= 1 && self.ore <= 1
    }
}

/// The values the hook reads on every record load, republished whole on
/// every ini reload.
pub struct LiveConfig {
    cfg: Config,
}

impl LiveConfig {
    pub closed spec fn current(&self) -> Config {
        self.cfg
    }

    /// Starts equal to the default config.
    pub fn new() -> (r: LiveConfig)
        ensures
            r.current() == default_config(),
    {
        LiveConfig { cfg: Config::default() }
    }

    /// Publish a freshly parsed config: every field of it wins.
    pub fn publish(&mut self, cfg: &Config)
        ensures
            final(self).current() == *cfg,
    {
        self.cfg = *cfg;
    }

    /// The live values as a plain config.
    pub fn load(&self) -> (r: Config)
        ensures
            r == self.current(),
    {
        self.cfg
    }

    pub fn enabled(&self) -> (r: bool)
        ensures
            r == self.current().enabled,
    {
        self.cfg.enabled
    }

    pub fn dry_run(&self) -> (r: bool)
        ensures
            r == self.current().dry_run,
    {
        self.cfg.dry_run
    }

    pub fn debug(&self) -> (r: bool)
        ensures
            r == self.current().debug,
    {
        self.cfg.debug
    }

    pub fn multiplier(&self, family: Family) -> (r: u32)
        ensures
            r == mult_of(self.current(), family),
    {
        self.cfg.multiplier(family)
    }
}

/// The family a key names, ASCII case-insensitively.
pub open spec fn family_key(k: Seq<u8>) -> Option<Family> {
    if eq_ic(k, lit("foraging")) {
        Some(Family::Foraging)
    } else if eq_ic(k, lit("logging")) {
        Some(Family::Logging)
    } else if eq_ic(k, lit("mining")) {
        Some(Family::Mining)
    } else if eq_ic(k, lit("ore")) {
        Some(Family::Ore)
    } else {
        None
    }
}

/// `Foraging: bad value "0" (1..100), keeping 1`.
pub open spec fn mult_warning(k: Seq<u8>, v: Seq<u8>, keep: u32) -> Seq<u8> {
    k + lit(": bad value ") + encode_utf8(debug_str(decode_utf8(v))) + lit(" (1..100), keeping ")
        + dec_spec(keep as nat)
}

/// `unknown key "Junk"`.
pub open spec fn unknown_warning(k: Seq<u8>) -> Seq<u8> {
    lit("unknown key ") + encode_utf8(debug_str(decode_utf8(k)))
}

/// One line's effect on the config and the warnings.
pub open spec fn step(acc: (Config, Seq<Seq<u8>>), l: SpecLine) -> (Config, Seq<Seq<u8>>) {
    let c = acc.0;
    let w = acc.1;
    match l {
        SpecLine::Bad(m) => (c, w.push(m)),
        SpecLine::Pair(k, v) => if eq_ic(k, lit("enabled")) {
            (Config { enabled: truthy(v), ..c }, w)
        } else if eq_ic(k, lit("dryrun")) {
            (Config { dry_run: truthy(v), ..c }, w)
        } else if eq_ic(k, lit("debug")) {
            (Config { debug: truthy(v), ..c }, w)
        } else {
            match family_key(k) {
                Some(f) => match parse_u32(v) {
                    Some(n) if MULT_MIN <= n <= MULT_MAX => (with_mult(c, f, n), w),
                    _ => (c, w.push(mult_warning(k, v, mult_of(c, f)))),
                },
                None => (c, w.push(unknown_warning(k))),
            }
        },
    }
}

/// The config and the warnings the lines add up to, from the defaults.
pub open spec fn parse_lines(ls: Seq<SpecLine>) -> (Config, Seq<Seq<u8>>)
    decreases ls.len(),
{
    if ls.len() == 0 {
        (default_config(), seq![])
    } else {
        step(parse_lines(ls.drop_last()), ls.last())
    }
}

pub open spec fn warning_bytes(w: Seq<String>) -> Seq<Seq<u8>> {
    w.map_values(|s: String| encode_utf8(s@))
}

/// What `parse` reads out of ini text.
pub open spec fn parse_spec(text: &str) -> (Config, Seq<Seq<u8>>) {
    parse_lines(lines_spec(text.spec_bytes()))
}

proof fn lemma_str_valid(s: &str)
    ensures
        valid_utf8(s.spec_bytes()),
{
    encode_utf8_valid_utf8(s@);
}

/// The multiplier warning for a pair out of well-formed text.
fn mult_warning_exec(k: &[u8], v: &[u8], keep: u32) -> (r: String)
    requires
        valid_utf8(k@),
        valid_utf8(v@),
    ensures
        encode_utf8(r@) == mult_warning(k@, v@, keep),
{
    let vs = string_of(v);
    proof {
        decode_utf8_encode_utf8(v@);
        encode_utf8_decode_utf8(vs@);
    }
    let d = debug_quoted(vs.as_str());
    let mut out: Vec<u8> = Vec::new();
    push_all(&mut out, k);
    push_str(&mut out, ": bad value ");
    push_str(&mut out, d.as_str());
    push_str(&mut out, " (1..100), keeping ");
    push_dec(&mut out, keep as u64);
    proof {
        assert(vs@ == decode_utf8(v@));
        lemma_str_valid(": bad value ");
        encode_utf8_valid_utf8(d@);
        lemma_str_valid(" (1..100), keeping ");
        lemma_dec_ascii(keep as nat);
        lemma_ascii_encode(dec_spec(keep as nat));
        let a = k@;
        let b = lit(": bad value ");
        let c = encode_utf8(debug_str(decode_utf8(v@)));
        let e = lit(" (1..100), keeping ");
        let f = dec_spec(keep as nat);
        assert(out@ =~= a + b + c + e + f);
        valid_utf8_concat(a, b);
        valid_utf8_concat(a + b, c);
        valid_utf8_concat(a + b + c, e);
        valid_utf8_concat(a + b + c + e, f);
    }
    utf8_string(out)
}

/// The unknown-key warning for a key out of well-formed text.
pub(crate) fn unknown_warning_exec(k: &[u8]) -> (r: String)
    requires
        valid_utf8(k@),
    ensures
        encode_utf8(r@) == unknown_warning(k@),
{
    let ks = string_of(k);
    proof {
        decode_utf8_encode_utf8(k@);
        encode_utf8_decode_utf8(ks@);
    }
    let d = debug_quoted(ks.as_str());
    let mut out: Vec<u8> = Vec::new();
    push_str(&mut out, "unknown key ");
    push_str(&mut out, d.as_str());
    proof {
        lemma_str_valid("unknown key ");
        encode_utf8_valid_utf8(d@);
        valid_utf8_concat(lit("unknown key "), encode_utf8(d@));
    }
    utf8_string(out)
}

fn family_key_exec(k: &[u8]) -> (r: Option<Family>)
    ensures
        r == family_key(k@),
{
    if eq_ic_exec(k, "foraging".as_bytes()) {
        Some(Family::Foraging)
    } else if eq_ic_exec(k, "logging".as_bytes()) {
        Some(Family::Logging)
    } else if eq_ic_exec(k, "mining".as_bytes()) {
        Some(Family::Mining)
    } else if eq_ic_exec(k, "ore".as_bytes()) {
        Some(Family::Ore)
    } else {
        None
    }
}

/// Parse ini text. Unknown keys and bad values are reported back so they can
/// be logged; the config always comes back usable.
pub fn parse(text: &str) -> (r: (Config, Vec<String>))
    ensures
        r.0 == parse_spec(text).0,
        warning_bytes(r.1@) == parse_spec(text).1,
{
    let ls = lines(text.as_bytes());
    let ghost all = lines_spec(text.spec_bytes());
    proof {
        lemma_str_valid(text);
        lemma_lines_valid(text.spec_bytes());
    }
    let mut cfg = Config::default();
    let mut warnings: Vec<String> = Vec::new();
    let mut i: usize = 0;
    while i < ls.len()
        invariant
            lines_view(ls@) == all,
            forall|j: int| 0 <= j < all.len() ==> line_valid(#[trigger] all[j]),
            0 <= i <= ls.len(),
            (cfg, warning_bytes(warnings@)) == parse_lines(all.take(i as int)),
        decreases ls.len() - i,
    {
        let ghost before = warnings@;
        let ghost l = all[i as int];
        assert(ls@[i as int]@ == l);
        proof {
            assert(all.take(i + 1).drop_last() =~= all.take(i as int));
            assert(all.take(i + 1).last() == l);
        }
        match &ls[i] {
            Line::Bad(m) => {
                let s = string_of(m.as_slice());
                warnings.push(s);
                assert(warning_bytes(warnings@) =~= warning_bytes(before).push(m@));
            },
            Line::Pair(k, v) => {
                if eq_ic_exec(k.as_slice(), "enabled".as_bytes()) {
                    cfg.enabled = parse_bool(v.as_slice());
                } else if eq_ic_exec(k.as_slice(), "dryrun".as_bytes()) {
                    cfg.dry_run = parse_bool(v.as_slice());
                } else if eq_ic_exec(k.as_slice(), "debug".as_bytes()) {
                    cfg.debug = parse_bool(v.as_slice());
                } else {
                    match family_key_exec(k.as_slice()) {
                        Some(f) => {
                            proof {
                                assert(v@.subrange(0, v@.len() as int) =~= v@);
                            }
                            match parse_u32_at(v.as_slice(), 0, v.len()) {
                                Some(n) if MULT_MIN <= n && n <= MULT_MAX => {
                                    match f {
                                        Family::Foraging => cfg.foraging = n,
                                        Family::Logging => cfg.logging = n,
                                        Family::Mining => cfg.mining = n,
                                        Family::Ore => cfg.ore = n,
                                    }
                                },
                                _ => {
                                    let keep = cfg.multiplier(f);
                                    let s = mult_warning_exec(k.as_slice(), v.as_slice(), keep);
                                    warnings.push(s);
                                    assert(warning_bytes(warnings@) =~= warning_bytes(before).push(
                                        mult_warning(k@, v@, keep),
                                    ));
                                },
                            }
                        },
                        None => {
                            let s = unknown_warning_exec(k.as_slice());
                            warnings.push(s);
                            assert(warning_bytes(warnings@) =~= warning_bytes(before).push(
                                unknown_warning(k@),
                            ));
                        },
                    }
                }
            },
        }
        i = i + 1;
    }
    proof {
        assert(all.take(ls.len() as int) =~= all);
    }
    (cfg, warnings)
}

} // verus!
