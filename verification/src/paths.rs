//! Derivation of the per-fold model artifact path: the fold number is
//! inserted before the `.bin` extension of the base path, so the base
//! `model.bin` names fold 3's artifact `model_fold3.bin`. A base path
//! without the extension is left unchanged.

use vstd::prelude::*;
use vstd::string::{StrSliceExecFns, StringExecFns};

verus! {

/// The decimal digit character for `d` in `0 ..= 9`.
pub open spec fn digit_char(d: int) -> char {
    if d == 0 {
        '0'
    } else if d == 1 {
        '1'
    } else if d == 2 {
        '2'
    } else if d == 3 {
        '3'
    } else if d == 4 {
        '4'
    } else if d == 5 {
        '5'
    } else if d == 6 {
        '6'
    } else if d == 7 {
        '7'
    } else if d == 8 {
        '8'
    } else {
        '9'
    }
}

/// The decimal digits of `n`, most significant first.
pub open spec fn dec_digits(n: int) -> Seq<char>
    decreases n,
{
    if n < 10 {
        seq![digit_char(n)]
    } else {
        dec_digits(n / 10).push(digit_char(n % 10))
    }
}

/// Whether the path ends with the `.bin` extension.
pub open spec fn ends_with_bin(s: Seq<char>) -> bool {
    s.len() >= 4 && s.subrange(s.len() - 4, s.len() as int) == seq!['.', 'b', 'i', 'n']
}

/// The artifact path of fold `f` derived from `base`: `_fold` and the fold
/// number inserted before the `.bin` extension; a base without the
/// extension is left as it is.
pub open spec fn fold_model_path_spec(base: Seq<char>, f: int) -> Seq<char> {
    if ends_with_bin(base) {
        base.take(base.len() - 4) + seq!['_', 'f', 'o', 'l', 'd'] + dec_digits(f) + seq![
            '.',
            'b',
            'i',
            'n',
        ]
    } else {
        base
    }
}

/// Append the decimal digits of `n` to `s`.
fn append_decimal(s: &mut String, n: u64)
    ensures
        final(s)@ == old(s)@ + dec_digits(n as int),
    decreases n,
{
    if n >= 10 {
        append_decimal(s, n / 10);
    }
    let m = n % 10;
    let digit: &str = if m == 0 {
        "0"
    } else if m == 1 {
        "1"
    } else if m == 2 {
        "2"
    } else if m == 3 {
        "3"
    } else if m == 4 {
        "4"
    } else if m == 5 {
        "5"
    } else if m == 6 {
        "6"
    } else if m == 7 {
        "7"
    } else if m == 8 {
        "8"
    } else {
        "9"
    };
    proof {
        reveal_strlit("0");
        reveal_strlit("1");
        reveal_strlit("2");
        reveal_strlit("3");
        reveal_strlit("4");
        reveal_strlit("5");
        reveal_strlit("6");
        reveal_strlit("7");
        reveal_strlit("8");
        reveal_strlit("9");
        assert(digit@ =~= seq![digit_char(m as int)]);
    }
    s.append(digit);
    proof {
        assert(final(s)@ =~= old(s)@ + dec_digits(n as int));
    }
}

/// The artifact path of fold `f`: the fold number inserted before the
/// base path's `.bin` extension.
pub fn fold_model_path(base: &str, fold: u64) -> (r: String)
    ensures
        r@ == fold_model_path_spec(base@, fold as int),
{
    let len = base.unicode_len();
    let has_ext = len >= 4 && base.get_char(len - 4) == '.' && base.get_char(len - 3) == 'b'
        && base.get_char(len - 2) == 'i' && base.get_char(len - 1) == 'n';
    proof {
        if has_ext {
            assert(base@.subrange(base@.len() - 4, base@.len() as int) =~= seq![
                '.',
                'b',
                'i',
                'n',
            ]);
        } else if base@.len() >= 4 {
            let tail = base@.subrange(base@.len() - 4, base@.len() as int);
            if ends_with_bin(base@) {
                assert(base@[base@.len() - 4] == tail[0]);
                assert(base@[base@.len() - 3] == tail[1]);
                assert(base@[base@.len() - 2] == tail[2]);
                assert(base@[base@.len() - 1] == tail[3]);
            }
        }
    }
    if !has_ext {
        return base.to_owned();
    }
    let stem = base.substring_char(0, len - 4);
    let mut r = stem.to_owned();
    proof {
        reveal_strlit("_fold");
        reveal_strlit(".bin");
    }
    r.append("_fold");
    append_decimal(&mut r, fold);
    r.append(".bin");
    proof {
        assert("_fold"@ =~= seq!['_', 'f', 'o', 'l', 'd']);
        assert(".bin"@ =~= seq!['.', 'b', 'i', 'n']);
        assert(r@ =~= fold_model_path_spec(base@, fold as int));
    }
    r
}

/// The artifact paths of every fold below `k`, in fold order.
pub fn artifact_paths(base: &str, k: usize) -> (v: Vec<String>)
    ensures
        v@.len() == k,
        forall|f: int| 0 <= f < k ==> #[trigger] v@[f]@ == fold_model_path_spec(base@, f),
{
    let mut v: Vec<String> = Vec::new();
    let mut f: usize = 0;
    while f < k
        invariant
            f <= k,
            v@.len() == f,
            forall|g: int| 0 <= g < f ==> #[trigger] v@[g]@ == fold_model_path_spec(base@, g),
        decreases k - f,
    {
        let p = fold_model_path(base, f as u64);
        v.push(p);
        f += 1;
    }
    v
}

} // verus!
