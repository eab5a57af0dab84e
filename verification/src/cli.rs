//! The decisions of the command-line driver: which target the arguments ask for and
//! where the generated Rust goes.
use vstd::prelude::*;
use crate::text::{chars_of, push_char, str_eq};
use crate::sema::Target;

verus! {

// ── the target ──────────────────────────────────────────────────────────────

/// The target named after the first `--target` at or after index `i`: `esp32` gives
/// ESP32; anything else, a missing value or no `--target` gives AVR.
pub open spec fn target_from(args: Seq<Seq<char>>, i: int) -> Target
    decreases args.len() - i,
{
    if i < 0 || i >= args.len() {
        Target::Avr
    } else if args[i] == "--target"@ {
        if i + 1 < args.len() && args[i + 1] == "esp32"@ { Target::Esp32 } else { Target::Avr }
    } else {
        target_from(args, i + 1)
    }
}

/// The texts of the command-line arguments.
pub open spec fn args_view(args: Seq<String>) -> Seq<Seq<char>> {
    args.map_values(|a: String| a@)
}

/// The target the command line asks for (AVR by default).
pub fn target_from_args(args: &Vec<String>) -> (r: Target)
    ensures
        r == target_from(args_view(args@), 0),
{
    let ghost a = args_view(args@);
    let mut i: usize = 0;
    while i < args.len()
        invariant
            i <= args@.len(),
            a == args_view(args@),
            target_from(a, 0) == target_from(a, i as int),
        decreases args@.len() - i,
    {
        if str_eq(args[i].as_str(), "--target") {
            if i + 1 < args.len() && str_eq(args[i + 1].as_str(), "esp32") {
                return Target::Esp32;
            }
            return Target::Avr;
        }
        i = i + 1;
    }
    Target::Avr
}

// ── the output path ─────────────────────────────────────────────────────────

/// `s` with every occurrence of `pat`, found left to right without overlap, replaced
/// by `rep`.
pub open spec fn replace_all(s: Seq<char>, pat: Seq<char>, rep: Seq<char>) -> Seq<char>
    decreases s.len(),
{
    if pat.len() == 0 || s.len() < pat.len() {
        s
    } else if s.take(pat.len() as int) == pat {
        rep + replace_all(s.skip(pat.len() as int), pat, rep)
    } else {
        seq![s[0]] + replace_all(s.skip(1), pat, rep)
    }
}

/// Whether `pat` occurs in `cs` at index `i`.
fn occurs_at(cs: &Vec<char>, pat: &Vec<char>, i: usize) -> (r: bool)
    requires
        i <= cs@.len(),
    ensures
        r == (i + pat@.len() <= cs@.len() && cs@.skip(i as int).take(pat@.len() as int) == pat@),
{
    let n = cs.len();
    if pat.len() > n - i {
        return false;
    }
    let mut k: usize = 0;
    while k < pat.len()
        invariant
            n == cs@.len(),
            k <= pat@.len(),
            i + pat@.len() <= cs@.len(),
            forall|j: int| 0 <= j < k ==> cs@[i + j] == pat@[j],
        decreases pat@.len() - k,
    {
        assert(i + k < cs@.len());
        if cs[i + k] != pat[k] {
            assert(cs@.skip(i as int).take(pat@.len() as int)[k as int] != pat@[k as int]);
            return false;
        }
        k = k + 1;
    }
    assert(cs@.skip(i as int).take(pat@.len() as int) =~= pat@);
    true
}

/// `s` with every occurrence of the non-empty `pat` replaced by `rep`.
pub fn replace_all_of(s: &str, pat: &str, rep: &str) -> (r: String)
    requires
        pat@.len() > 0,
    ensures
        r@ == replace_all(s@, pat@, rep@),
{
    let cs = chars_of(s);
    let ps = chars_of(pat);
    let mut out = String::new();
    let mut i: usize = 0;
    assert(cs@.skip(0) =~= cs@);
    assert(out@ + replace_all(cs@, ps@, rep@) =~= replace_all(cs@, ps@, rep@));
    while i < cs.len()
        invariant
            i <= cs@.len(),
            cs@ == s@,
            ps@ == pat@,
            pat@.len() > 0,
            out@ + replace_all(cs@.skip(i as int), ps@, rep@) == replace_all(s@, pat@, rep@),
        decreases cs@.len() - i,
    {
        let ghost rest = cs@.skip(i as int);
        if occurs_at(&cs, &ps, i) {
            proof {
                assert(rest.take(ps@.len() as int) == ps@);
                assert(rest.skip(ps@.len() as int) =~= cs@.skip(i + ps@.len()));
            }
            out.append(rep);
            i = i + ps.len();
            assert(out@ + replace_all(cs@.skip(i as int), ps@, rep@) =~= replace_all(s@, pat@, rep@));
        } else {
            proof {
                assert(rest.skip(1) =~= cs@.skip(i + 1));
                assert(rest[0] == cs@[i as int]);
                if rest.len() >= ps@.len() {
                    assert(rest.take(ps@.len() as int) != ps@);
                }
            }
            push_char(&mut out, cs[i]);
            i = i + 1;
            assert(out@ + replace_all(cs@.skip(i as int), ps@, rep@) =~= replace_all(s@, pat@, rep@));
        }
    }
    assert(cs@.skip(i as int) =~= Seq::<char>::empty());
    assert(out@ + Seq::<char>::empty() =~= out@);
    out
}

/// Where the generated Rust of a Lua file goes: the path with every `.lua` made `.rs`.
pub fn output_path(lua_path: &str) -> (r: String)
    ensures
        r@ == replace_all(lua_path@, ".lua"@, ".rs"@),
{
    proof {
        reveal_strlit(".lua");
    }
    replace_all_of(lua_path, ".lua", ".rs")
}

} // verus!
