//! Budget names: users may write any case ("Food", "FOOD"); the store keys
//! every operation by the case-folded name, folded exactly once here, and
//! accepts only names that are safe as quoted SQL identifiers.

use vstd::prelude::*;
use vstd::string::StrSliceExecFns;
use vstd::utf8::is_ascii_chars;

verus! {

/// ASCII case folding of one character: 'A'..'Z' map to 'a'..'z'; every
/// other character stays as it is.
pub open spec fn fold_char(c: char) -> char {
    if 'A' <= c && c <= 'Z' {
        ((c as int) + 32) as char
    } else {
        c
    }
}

/// ASCII case folding of a whole name.
pub open spec fn fold_chars(s: Seq<char>) -> Seq<char> {
    s.map_values(|c: char| fold_char(c))
}

/// Characters allowed in a stored budget name.
pub open spec fn valid_char(c: char) -> bool {
    ('a' <= c && c <= 'z') || ('0' <= c && c <= '9') || c == '_'
}

/// Names beginning with `sqlite_` are reserved by the storage engine.
pub open spec fn reserved_prefix(s: Seq<char>) -> bool {
    s.len() >= 7 && s[0] == 's' && s[1] == 'q' && s[2] == 'l' && s[3] == 'i'
        && s[4] == 't' && s[5] == 'e' && s[6] == '_'
}

/// A valid stored name: nonempty, starting with a letter, made of lowercase
/// letters, digits and underscores, and not reserved by the engine.
pub open spec fn valid_name(s: Seq<char>) -> bool {
    &&& s.len() >= 1
    &&& 'a' <= s[0] && s[0] <= 'z'
    &&& forall|i: int| 0 <= i < s.len() ==> valid_char(#[trigger] s[i])
    &&& !reserved_prefix(s)
}

/// What normalization yields: the case-folded name, when that is valid.
pub open spec fn norm_name(s: Seq<char>) -> Option<Seq<char>> {
    if valid_name(fold_chars(s)) {
        Some(fold_chars(s))
    } else {
        None
    }
}

/// A budget name as the store keys it: already folded and validated.
pub struct BudgetName {
    name: String,
}

impl View for BudgetName {
    type V = Seq<char>;

    closed spec fn view(&self) -> Seq<char> {
        self.name@
    }
}

/// Relies on `str::to_lowercase`: on ASCII input it maps each character
/// 'A'..'Z' to 'a'..'z' and leaves every other character unchanged.
#[verifier::external_body]
fn ascii_lower(s: &str) -> (r: String)
    requires
        is_ascii_chars(s@),
    ensures
        r@ == fold_chars(s@),
{
    s.to_lowercase()
}

/// Folding keeps a sequence ASCII.
proof fn lemma_fold_preserves_ascii(s: Seq<char>)
    requires
        is_ascii_chars(s),
    ensures
        is_ascii_chars(fold_chars(s)),
{
    assert forall|i: int| 0 <= i < fold_chars(s).len() implies '\0' <= #[trigger] fold_chars(
        s,
    )[i] <= '\u{7f}' by {
        assert('\0' <= s[i] <= '\u{7f}');
    }
}

/// Every character a valid name may hold is ASCII, and so is anything that
/// folds to one.
proof fn lemma_valid_fold_ascii(s: Seq<char>)
    requires
        valid_name(fold_chars(s)),
    ensures
        is_ascii_chars(s),
{
    assert forall|i: int| 0 <= i < s.len() implies '\0' <= #[trigger] s[i] <= '\u{7f}' by {
        assert(valid_char(fold_chars(s)[i]));
    }
}

impl BudgetName {
    /// The invariant of a stored name.
    pub open spec fn wf(&self) -> bool {
        valid_name(self@)
    }

    /// Case-fold and validate a raw user-supplied name.  Returns the name
    /// the store will key by, or `None` when no valid name comes of it.
    pub fn new(raw: &str) -> (r: Option<BudgetName>)
        ensures
            r is Some <==> norm_name(raw@) is Some,
            r matches Some(bn) ==> bn@ == fold_chars(raw@) && bn.wf(),
    {
        if !raw.is_ascii() {
            proof {
                if valid_name(fold_chars(raw@)) {
                    lemma_valid_fold_ascii(raw@);
                }
            }
            return None;
        }
        proof {
            lemma_fold_preserves_ascii(raw@);
        }
        let folded = ascii_lower(raw);
        if Self::check_valid(folded.as_str()) {
            Some(BudgetName { name: folded })
        } else {
            None
        }
    }

    /// Check the stored-name invariant of an already folded string.
    fn check_valid(s: &str) -> (r: bool)
        requires
            is_ascii_chars(s@),
        ensures
            r == valid_name(s@),
    {
        let n = s.unicode_len();
        if n == 0 {
            return false;
        }
        let first = s.get_char(0);
        if !('a' <= first && first <= 'z') {
            return false;
        }
        let mut i: usize = 1;
        while i < n
            invariant
                1 <= i <= n,
                n == s@.len(),
                forall|j: int| 0 <= j < i ==> valid_char(#[trigger] s@[j]),
            decreases n - i,
        {
            let c = s.get_char(i);
            if !(('a' <= c && c <= 'z') || ('0' <= c && c <= '9') || c == '_') {
                return false;
            }
            i += 1;
        }
        if n >= 7 {
            let reserved = s.get_char(0) == 's' && s.get_char(1) == 'q' && s.get_char(2) == 'l'
                && s.get_char(3) == 'i' && s.get_char(4) == 't' && s.get_char(5) == 'e'
                && s.get_char(6) == '_';
            !reserved
        } else {
            true
        }
    }

    /// The stored name, for display and for the SQL layer.
    pub fn as_str(&self) -> (r: &str)
        ensures
            r@ == self@,
    {
        self.name.as_str()
    }

    /// Give the stored name up as an owned string.
    pub fn into_name(self) -> (r: String)
        ensures
            r@ == self@,
    {
        self.name
    }
}

/// A valid name is already folded: folding it changes nothing.
pub proof fn lemma_fold_valid_identity(s: Seq<char>)
    requires
        valid_name(s),
    ensures
        fold_chars(s) == s,
{
    assert forall|i: int| 0 <= i < s.len() implies #[trigger] fold_chars(s)[i] == s[i] by {
        assert(valid_char(s[i]));
    }
    assert(fold_chars(s) =~= s);
}

/// Folding twice is folding once: a name and its folded form resolve to the
/// same stored key.
pub proof fn lemma_fold_idempotent(s: Seq<char>)
    ensures
        fold_chars(fold_chars(s)) == fold_chars(s),
{
    assert forall|i: int| 0 <= i < s.len() implies #[trigger] fold_chars(fold_chars(s))[i]
        == fold_chars(s)[i] by {
        let c = s[i];
        if 'A' <= c && c <= 'Z' {
            assert(!('A' <= fold_char(c) && fold_char(c) <= 'Z'));
        }
    }
    assert(fold_chars(fold_chars(s)) =~= fold_chars(s));
}

} // verus!
