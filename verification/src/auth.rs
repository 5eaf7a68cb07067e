//! The bearer-token authorization attached to every request.
use vstd::prelude::*;
use crate::text::{chars_of, push_all, push_char};
use crate::transport::{check_metadata_text, is_metadata_char, is_metadata_text};
use tonic::metadata::errors::InvalidMetadataValue;

verus! {

/// The scheme word that precedes a token: `Bearer `.
pub open spec fn bearer_prefix() -> Seq<char> {
    seq!['B', 'e', 'a', 'r', 'e', 'r', ' ']
}

/// The `authorization` value for a token: `Bearer <token>`.
pub open spec fn bearer(token: Seq<char>) -> Seq<char> {
    bearer_prefix() + token
}

/// The authorization that the client attaches to requests: the value of the
/// `authorization` metadata entry, or none.
#[derive(Debug)]
pub struct AuthInterceptor {
    authorization_header: Option<String>,
}

impl View for AuthInterceptor {
    type V = Option<Seq<char>>;

    closed spec fn view(&self) -> Option<Seq<char>> {
        match self.authorization_header {
            Some(h) => Some(h@),
            None => None,
        }
    }
}

impl Clone for AuthInterceptor {
    fn clone(&self) -> (r: Self)
        ensures
            r@ == self@,
    {
        proof {
            use_type_invariant(self);
        }
        match &self.authorization_header {
            Some(h) => AuthInterceptor { authorization_header: Some(h.clone()) },
            None => AuthInterceptor { authorization_header: None },
        }
    }
}

impl AuthInterceptor {
    /// A header that is present is a valid ASCII metadata value.
    #[verifier::type_invariant]
    spec fn header_is_metadata(self) -> bool {
        self.authorization_header matches Some(h) ==> is_metadata_text(h@)
    }

    /// The authorization for an optional token: none without a token, otherwise
    /// `Bearer <token>`, which fails when it is no valid ASCII metadata value.
    pub fn from_token(token: Option<&str>) -> (r: Result<AuthInterceptor, InvalidMetadataValue>)
        ensures
            match token {
                None => r matches Ok(a) && a@ is None,
                Some(t) => (r is Ok <==> is_metadata_text(t@)) && (r matches Ok(a) ==> a@ == Some(
                    bearer(t@),
                )),
            },
    {
        match token {
            None => Ok(AuthInterceptor { authorization_header: None }),
            Some(t) => {
                let mut text = String::new();
                push_char(&mut text, 'B');
                push_char(&mut text, 'e');
                push_char(&mut text, 'a');
                push_char(&mut text, 'r');
                push_char(&mut text, 'e');
                push_char(&mut text, 'r');
                push_char(&mut text, ' ');
                let tc = chars_of(t);
                push_all(&mut text, &tc);
                assert(text@ =~= bearer(t@));
                proof {
                    lemma_bearer_is_metadata(t@);
                }
                match check_metadata_text(text.as_str()) {
                    Ok(()) => Ok(AuthInterceptor { authorization_header: Some(text) }),
                    Err(e) => Err(e),
                }
            },
        }
    }

    /// The value of the `authorization` metadata entry, if there is one; it is
    /// always a valid ASCII metadata value.
    pub fn authorization_header(&self) -> (r: Option<&str>)
        ensures
            match r {
                Some(h) => self@ == Some(h@) && is_metadata_text(h@),
                None => self@ is None,
            },
    {
        proof {
            use_type_invariant(self);
        }
        match &self.authorization_header {
            Some(h) => Some(h.as_str()),
            None => None,
        }
    }
}

/// `Bearer <token>` is a valid metadata value exactly when the token is.
pub proof fn lemma_bearer_is_metadata(token: Seq<char>)
    ensures
        is_metadata_text(bearer(token)) <==> is_metadata_text(token),
{
    let b = bearer(token);
    assert forall|i: int| 0 <= i < bearer_prefix().len() implies is_metadata_char(
        #[trigger] b[i],
    ) by {
        assert(b[i] == bearer_prefix()[i]);
    }
    if is_metadata_text(token) {
        assert forall|i: int| 0 <= i < b.len() implies is_metadata_char(#[trigger] b[i]) by {
            if i >= 7 {
                assert(b[i] == token[i - 7]);
            } else {
                assert(b[i] == bearer_prefix()[i]);
            }
        }
    }
    if is_metadata_text(b) {
        assert forall|i: int| 0 <= i < token.len() implies is_metadata_char(#[trigger] token[i]) by {
            assert(b[i + 7] == token[i]);
        }
    }
}


/// The authorization value is the literal `Bearer ` followed by the token, unchanged:
/// it is seven characters longer, its end is the token, and different tokens give
/// different values.
pub proof fn law_bearer_keeps_the_token(token: Seq<char>, other: Seq<char>)
    ensures
        bearer(token).len() == token.len() + 7,
        bearer(token).take(7) == seq!['B', 'e', 'a', 'r', 'e', 'r', ' '],
        bearer(token).skip(7) == token,
        bearer(token) == bearer(other) ==> token == other,
{
    assert(bearer(token).take(7) =~= seq!['B', 'e', 'a', 'r', 'e', 'r', ' ']);
    assert(bearer(token).skip(7) =~= token);
    assert(bearer(other).skip(7) =~= other);
}

} // verus!
