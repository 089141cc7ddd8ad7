//! The text that the code blocks and the terminal animation put on the page.

use vstd::prelude::*;
use crate::decimal::{decimal, decimal_injective, format_u32};

verus! {

/// The CSS class that marks a code block as written in `lang`.
pub open spec fn code_class_spec(lang: Seq<char>) -> Seq<char> {
    "language-"@ + lang
}

/// The CSS class of a code block in `lang`: `language-` followed by `lang`.
pub fn code_class(lang: &str) -> (r: String)
    ensures
        r@ == code_class_spec(lang@),
        r@.len() == 9 + lang@.len(),
        r@.take(9) == "language-"@,
        r@.skip(9) == lang@,
{
    proof {
        code_class_splits(lang@);
    }
    let mut class = "language-".to_owned();
    class.append(lang);
    class
}

/// The element id of the terminal animation numbered `n`.
pub open spec fn terminal_id_spec(n: nat) -> Seq<char> {
    "terminal-"@ + decimal(n)
}

/// The element id of the terminal animation numbered `n`: `terminal-`
/// followed by `n` in decimal.
pub fn terminal_id(n: u32) -> (r: String)
    ensures
        r@ == terminal_id_spec(n as nat),
        r@.take(9) == "terminal-"@,
        r@.skip(9) == decimal(n as nat),
{
    proof {
        terminal_id_splits(n as nat);
    }
    let mut id = "terminal-".to_owned();
    let digits = format_u32(n);
    id.append(digits.as_str());
    id
}

/// Calls `rand::random::<u32>()`, which draws a number from the thread's
/// random generator. Any `u32` may come back, so nothing is stated of the
/// result. The call panics only where the operating system cannot seed that
/// generator, which no argument can rule out.
#[verifier::external_body]
fn random_u32() -> u32 {
    rand::random::<u32>()
}

/// A terminal element id with a freshly drawn random number.
pub fn fresh_terminal_id() -> (r: String)
    ensures
        exists|n: u32| r@ == #[trigger] terminal_id_spec(n as nat),
{
    let n = random_u32();
    let id = terminal_id(n);
    assert(id@ == terminal_id_spec(n as nat));
    id
}

/// Terminal ids drawn from distinct numbers are distinct.
pub proof fn terminal_ids_distinct(a: nat, b: nat)
    ensures
        terminal_id_spec(a) == terminal_id_spec(b) ==> a == b,
{
    let p = "terminal-"@;
    if terminal_id_spec(a) == terminal_id_spec(b) {
        assert(decimal(a) =~= terminal_id_spec(a).skip(p.len() as int));
        assert(decimal(b) =~= terminal_id_spec(b).skip(p.len() as int));
        decimal_injective(a, b);
    }
}

/// A code block's class is `language-` followed by the language name,
/// unchanged.
pub proof fn code_class_splits(lang: Seq<char>)
    ensures
        code_class_spec(lang).len() == 9 + lang.len(),
        code_class_spec(lang).take(9) == "language-"@,
        code_class_spec(lang).skip(9) == lang,
{
    reveal_strlit("language-");
    assert(code_class_spec(lang).take(9) =~= "language-"@);
    assert(code_class_spec(lang).skip(9) =~= lang);
}

/// A terminal id is `terminal-` followed by the number's decimal text.
pub proof fn terminal_id_splits(n: nat)
    ensures
        terminal_id_spec(n).len() == 9 + decimal(n).len(),
        terminal_id_spec(n).take(9) == "terminal-"@,
        terminal_id_spec(n).skip(9) == decimal(n),
{
    reveal_strlit("terminal-");
    assert(terminal_id_spec(n).take(9) =~= "terminal-"@);
    assert(terminal_id_spec(n).skip(9) =~= decimal(n));
}

} // verus!
