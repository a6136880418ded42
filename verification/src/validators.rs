use crate::errors::NameError;
use vstd::prelude::*;

verus! {

/// A character allowed at the start of a project name: a letter or a digit.
pub open spec fn name_start_ok(c: char) -> bool {
    ('a' <= c && c <= 'z') || ('A' <= c && c <= 'Z') || ('0' <= c && c <= '9')
}

/// A character allowed anywhere in a project name: a letter, a digit, a
/// hyphen, or an underscore.
pub open spec fn name_char_ok(c: char) -> bool {
    name_start_ok(c) || c == '-' || c == '_'
}

/// A valid project name: non-empty, at most 50 characters, starting with a
/// letter or digit, and made of letters, digits, hyphens and underscores.
pub open spec fn valid_name(s: Seq<char>) -> bool {
    &&& 0 < s.len() <= 50
    &&& name_start_ok(s[0])
    &&& forall|i: int| 0 <= i < s.len() ==> name_char_ok(#[trigger] s[i])
}

/// Checks project names against the library's naming rules.
pub struct ProjectValidator;

impl ProjectValidator {
    /// Accepts exactly the valid names; each rejection names the first rule
    /// broken, checking emptiness, then length, then the character rules.
    pub fn validate_name(name: &str) -> (r: Result<(), NameError>)
        ensures
            r is Ok <==> valid_name(name@),
            r == Err::<(), NameError>(NameError::Empty) <==> name@.len() == 0,
            r == Err::<(), NameError>(NameError::TooLong) <==> name@.len() > 50,
            r == Err::<(), NameError>(NameError::BadFormat) <==> (0 < name@.len() <= 50
                && !valid_name(name@)),
    {
        let n = name.unicode_len();
        if n == 0 {
            return Err(NameError::Empty);
        }
        if n > 50 {
            return Err(NameError::TooLong);
        }
        let mut i: usize = 0;
        while i < n
            invariant
                n == name@.len(),
                0 < n <= 50,
                0 <= i <= n,
                forall|j: int| 0 <= j < i ==> name_char_ok(#[trigger] name@[j]),
                i > 0 ==> name_start_ok(name@[0]),
            decreases n - i,
        {
            let c = name.get_char(i);
            if i == 0 {
                if !((('a' <= c && c <= 'z') || ('A' <= c && c <= 'Z')) || ('0' <= c && c <= '9'))
                {
                    return Err(NameError::BadFormat);
                }
            } else {
                if !((('a' <= c && c <= 'z') || ('A' <= c && c <= 'Z')) || ('0' <= c && c <= '9')
                    || c == '-' || c == '_') {
                    return Err(NameError::BadFormat);
                }
            }
            i = i + 1;
        }
        Ok(())
    }
}

} // verus!
