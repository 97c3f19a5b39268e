//! Shape rules for host identifiers and key types.
use vstd::prelude::*;
use crate::error::AppError;
use crate::paths::SshPaths;

verus! {

pub open spec fn host_char(c: char) -> bool {
    ('a' <= c && c <= 'z') || ('A' <= c && c <= 'Z') || ('0' <= c && c <= '9') || c == '.' || c
        == '-' || c == '_'
}

/// A host identifier: non-empty, of ASCII letters, digits, `.`, `-` and `_` only
/// (so with no `/` and no white space).
pub open spec fn valid_host(h: Seq<char>) -> bool {
    h.len() > 0 && forall|i: int| 0 <= i < h.len() ==> host_char(#[trigger] h[i])
}

pub open spec fn key_type_char(c: char) -> bool {
    ('a' <= c && c <= 'z') || ('0' <= c && c <= '9')
}

/// A key type: non-empty, of lowercase ASCII letters and digits only.
pub open spec fn valid_key_type(t: Seq<char>) -> bool {
    t.len() > 0 && forall|i: int| 0 <= i < t.len() ==> key_type_char(#[trigger] t[i])
}

fn message(text: &str) -> (r: AppError)
    ensures
        r is ValidationError,
{
    AppError::ValidationError(text.to_owned())
}

impl SshPaths {
    /// Accepts exactly the valid host identifiers.
    pub fn validate_host(&self, host: &str) -> (r: Result<(), AppError>)
        ensures
            r is Ok <==> valid_host(host@),
            r matches Err(e) ==> e is ValidationError,
    {
        let n = host.unicode_len();
        if n == 0 {
            return Err(message("host must not be empty"));
        }
        let mut i: usize = 0;
        while i < n
            invariant
                n == host@.len(),
                i <= n,
                forall|j: int| 0 <= j < i ==> host_char(#[trigger] host@[j]),
            decreases n - i,
        {
            let c = host.get_char(i);
            let ok = ('a' <= c && c <= 'z') || ('A' <= c && c <= 'Z') || ('0' <= c && c <= '9')
                || c == '.' || c == '-' || c == '_';
            if !ok {
                return Err(
                    AppError::validation_error(
                        "invalid host identifier '",
                        host,
                        "'; allowed characters are alphanumeric, '.', '-', '_'",
                    ),
                );
            }
            i = i + 1;
        }
        Ok(())
    }

    /// Accepts exactly the valid key types.
    pub fn validate_key_type(&self, key_type: &str) -> (r: Result<(), AppError>)
        ensures
            r is Ok <==> valid_key_type(key_type@),
            r matches Err(e) ==> e is ValidationError,
    {
        let n = key_type.unicode_len();
        if n == 0 {
            return Err(message("key type must not be empty"));
        }
        let mut i: usize = 0;
        while i < n
            invariant
                n == key_type@.len(),
                i <= n,
                forall|j: int| 0 <= j < i ==> key_type_char(#[trigger] key_type@[j]),
            decreases n - i,
        {
            let c = key_type.get_char(i);
            if !(('a' <= c && c <= 'z') || ('0' <= c && c <= '9')) {
                return Err(
                    AppError::validation_error(
                        "invalid key type '",
                        key_type,
                        "'; expected lowercase letters or digits",
                    ),
                );
            }
            i = i + 1;
        }
        Ok(())
    }
}

} // verus!
