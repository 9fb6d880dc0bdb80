//! Rendering of the diff result: the common prefix is left as-is and the
//! differing suffix of the target column is wrapped in a terminal color.

use vstd::prelude::*;

use colored::Colorize;

use crate::prefix::common_prefix;
use crate::prefix::common_prefix_len;
use crate::prefix::lemma_common_prefix_len_props;

verus! {

/// The SGR escape sequence that opens green foreground rendering.
pub open spec fn green_open() -> Seq<char> {
    seq!['\u{001B}', '[', '3', '2', 'm']
}

/// The SGR escape sequence that resets rendering.
pub open spec fn sgr_reset() -> Seq<char> {
    seq!['\u{001B}', '[', '0', 'm']
}

/// The text that `colored` emits for the input of a green-styled string: the
/// input itself, with every inner reset sequence re-opened in green. It
/// depends on the characters of the input alone, and equals the input
/// whenever the input holds no escape character.
pub uninterp spec fn green_escaped(s: Seq<char>) -> Seq<char>;

/// Relies on `colored::Colorize::green` and the `Display` impl of
/// `colored::ColoredString`: when colorization is off the input is returned
/// unchanged; when it is on, the input (rewritten by `green_escaped`, which
/// leaves an input without escape characters unchanged) is wrapped in the
/// green SGR code and the reset code. Whether colorization is on depends on
/// the terminal and the environment, so no one outcome is promised.
#[verifier::external_body]
fn green_str(s: &str) -> (r: String)
    ensures
        r@ == s@ || r@ == green_open() + green_escaped(s@) + sgr_reset(),
        !s@.contains('\u{001B}') ==> r@ == s@ || r@ == green_open() + s@ + sgr_reset(),
{
    s.green().to_string()
}

/// Whether `out` is a valid rendering of `tgt` against `src`: the common
/// prefix of the two unmarked, and the remaining suffix of `tgt` either left
/// plain (colorization off) or wrapped in green (colorization on).
pub open spec fn diff_colored_ok(src: Seq<char>, tgt: Seq<char>, out: Seq<char>) -> bool {
    let p = common_prefix_len(src, tgt) as int;
    ||| out == tgt
    ||| out == tgt.subrange(0, p) + green_open() + green_escaped(tgt.subrange(p, tgt.len() as int))
        + sgr_reset()
}

/// As `diff_colored_ok`, for a target without escape characters: the marked
/// suffix is then exactly the suffix of `tgt` after the common prefix.
pub open spec fn diff_colored_plain_ok(src: Seq<char>, tgt: Seq<char>, out: Seq<char>) -> bool {
    let p = common_prefix_len(src, tgt) as int;
    ||| out == tgt
    ||| out == tgt.subrange(0, p) + green_open() + tgt.subrange(p, tgt.len() as int) + sgr_reset()
}

/// Renders `target` with its longest common prefix with `source` unmarked
/// and the rest marked for highlighted (green) rendering.
pub fn diff_color(source: &str, target: &str) -> (r: String)
    ensures
        diff_colored_ok(source@, target@, r@),
        !target@.contains('\u{001B}') ==> diff_colored_plain_ok(source@, target@, r@),
{
    proof {
        lemma_common_prefix_len_props(source@, target@);
    }
    let ghost p: int = common_prefix_len(source@, target@) as int;
    let prefix = common_prefix(source, target);
    let suffix = target.substring_char(prefix.unicode_len(), target.unicode_len());
    proof {
        assert(suffix@ == target@.subrange(p, target@.len() as int));
        if target@.contains('\u{001B}') == false && suffix@.contains('\u{001B}') {
            let k: int = choose|k: int| 0 <= k < suffix@.len() && suffix@[k] == '\u{001B}';
            assert(target@[p + k] == '\u{001B}');
        }
    }
    let marked = green_str(suffix);
    let mut r = prefix.to_owned();
    r.append(marked.as_str());
    proof {
        if marked@ == suffix@ {
            assert(r@ =~= target@);
        } else {
            assert(marked@ == green_open() + green_escaped(suffix@) + sgr_reset());
            assert(r@ =~= target@.subrange(0, p) + green_open() + green_escaped(
                target@.subrange(p, target@.len() as int),
            ) + sgr_reset());
        }
        if !target@.contains('\u{001B}') {
            assert(!suffix@.contains('\u{001B}'));
            if marked@ != suffix@ {
                assert(marked@ == green_open() + suffix@ + sgr_reset());
                assert(r@ =~= target@.subrange(0, p) + green_open() + target@.subrange(
                    p,
                    target@.len() as int,
                ) + sgr_reset());
            }
        }
    }
    r
}

} // verus!
