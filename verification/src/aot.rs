//! Support for ahead-of-time compilation: the content hash of a module's
//! textual form and the collision-resistant temporary object-file name
//! derived from it, so concurrent or repeated builds of different programs
//! do not clobber each other's temporary files.

use vstd::prelude::*;
use std::hash::Hasher;
use vstd::std_specs::hash::DefaultHasherAdditionalSpecFns;
use vstd::string::StringSliceAdditionalSpecFns;
use vstd::string::StrSliceExecFns;
use vstd::string::StringExecFns;

verus! {

broadcast use vstd::string::group_string_axioms;

/// The hash of a text: what the standard hasher computes from its bytes.
/// Equal texts always hash equally, so re-running a build derives the same
/// temporary name.
pub open spec fn hash_of(s: Seq<u8>) -> u64 {
    std::collections::hash_map::DefaultHasher::spec_finish(seq![s])
}

/// Hash a text with the standard hasher.
pub fn compute_hash(t: &str) -> (r: u64)
    ensures
        r == hash_of(t.spec_bytes()),
{
    let mut hasher = std::collections::hash_map::DefaultHasher::new();
    hasher.write(t.as_bytes());
    proof {
        assert(hasher@ =~= seq![t.spec_bytes()]);
    }
    hasher.finish()
}

/// The decimal digits of `n`, most significant first.
pub open spec fn dec_digits(n: nat) -> Seq<char>
    decreases n,
{
    if n < 10 {
        seq![digit_char(n)]
    } else {
        dec_digits(n / 10).push(digit_char(n % 10))
    }
}

/// The character for one decimal digit.
pub open spec fn digit_char(d: nat) -> char {
    if d == 0 {
        '0'
    } else if d == 1 {
        '1'
    } else if d == 2 {
        '2'
    } else if d == 3 {
        '3'
    } else if d == 4 {
        '4'
    } else if d == 5 {
        '5'
    } else if d == 6 {
        '6'
    } else if d == 7 {
        '7'
    } else if d == 8 {
        '8'
    } else {
        '9'
    }
}

/// Append the decimal rendering of `n` to `out`.
fn push_decimal(n: u64, out: &mut String)
    ensures
        final(out)@ == old(out)@ + dec_digits(n as nat),
    decreases n,
{
    if n >= 10 {
        push_decimal(n / 10, out);
    }
    let d = n % 10;
    let ghost before = out@;
    if d == 0 {
        out.append("0");
    } else if d == 1 {
        out.append("1");
    } else if d == 2 {
        out.append("2");
    } else if d == 3 {
        out.append("3");
    } else if d == 4 {
        out.append("4");
    } else if d == 5 {
        out.append("5");
    } else if d == 6 {
        out.append("6");
    } else if d == 7 {
        out.append("7");
    } else if d == 8 {
        out.append("8");
    } else {
        out.append("9");
    }
    proof {
        reveal_strlit("0");
        reveal_strlit("1");
        reveal_strlit("2");
        reveal_strlit("3");
        reveal_strlit("4");
        reveal_strlit("5");
        reveal_strlit("6");
        reveal_strlit("7");
        reveal_strlit("8");
        reveal_strlit("9");
        assert(out@ =~= before.push(digit_char((n % 10) as nat)));
        if n < 10 {
            assert(dec_digits(n as nat) =~= seq![digit_char(n as nat)]);
            assert(out@ =~= old(out)@ + dec_digits(n as nat));
        } else {
            assert(out@ =~= old(out)@ + dec_digits(n as nat));
        }
    }
}

/// The temporary object-file name for a module text.
pub open spec fn object_name_of(text: Seq<u8>) -> Seq<char> {
    "output-"@ + dec_digits(hash_of(text) as nat) + ".o"@
}

/// The name of the temporary object file for a module's textual form:
/// `output-`, the decimal content hash, and `.o`.
pub fn object_file_name(text: &str) -> (r: String)
    ensures
        r@ == object_name_of(text.spec_bytes()),
{
    let h = compute_hash(text);
    let mut name = String::new();
    name.append("output-");
    push_decimal(h, &mut name);
    name.append(".o");
    proof {
        assert(name@ =~= object_name_of(text.spec_bytes()));
    }
    name
}

} // verus!
