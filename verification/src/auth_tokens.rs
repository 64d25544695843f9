//! Authentication tokens: a token id stands for an author and a secret.

use vstd::prelude::*;
use crate::errors::RegistryError;
use crate::laws::law_token_created_wf;
use crate::laws::law_token_deleted_wf;
use crate::outcome::or_not_found;
use crate::records::AuthToken;
use crate::records::AuthTokenView;
use crate::store::ok_some_view;
use crate::store::ok_view;
use crate::store::required;
use crate::store::rows_view;
use crate::store::tokens_wf;
use crate::store::Registry;
use crate::store::RegistryView;

verus! {

impl RegistryView {
    /// Whether a token is stored under `id`.
    pub open spec fn has_token(self, id: Seq<char>) -> bool {
        exists|i: int| 0 <= i < self.auth_tokens.len() && (#[trigger] self.auth_tokens[i]).id == id
    }

    /// Where in the table the token with this id stands, if there is one.
    pub open spec fn token_position(self, id: Seq<char>) -> int {
        choose|i: int| 0 <= i < self.auth_tokens.len() && (#[trigger] self.auth_tokens[i]).id == id
    }

    /// The token stored under `id`, if there is one.
    pub open spec fn token(self, id: Seq<char>) -> Option<AuthTokenView> {
        if self.has_token(id) {
            Some(self.auth_tokens[self.token_position(id)])
        } else {
            None
        }
    }

    /// What storing `token` returns: an error where its id is taken.
    pub open spec fn token_create_result(self, token: AuthTokenView) -> Result<(), RegistryError> {
        if self.has_token(token.id) {
            Err(RegistryError::UniqueConstraintViolation)
        } else {
            Ok(())
        }
    }

    /// The store after an attempt to store `token`: unchanged where its id is
    /// taken, else with the token as the last row.
    pub open spec fn token_created(self, token: AuthTokenView) -> RegistryView {
        if self.has_token(token.id) {
            self
        } else {
            RegistryView { auth_tokens: self.auth_tokens.push(token), ..self }
        }
    }

    /// The store without the token stored under `id`.
    pub open spec fn token_deleted(self, id: Seq<char>) -> RegistryView {
        if self.has_token(id) {
            RegistryView { auth_tokens: self.auth_tokens.remove(self.token_position(id)), ..self }
        } else {
            self
        }
    }
}

/// In a well-formed table a token's id fixes its position.
pub proof fn lemma_token_position(s: RegistryView, i: int)
    requires
        tokens_wf(s.auth_tokens),
        0 <= i < s.auth_tokens.len(),
    ensures
        s.has_token(s.auth_tokens[i].id),
        s.token_position(s.auth_tokens[i].id) == i,
        s.token(s.auth_tokens[i].id) == Some(s.auth_tokens[i]),
{
    let id = s.auth_tokens[i].id;
    let p = s.token_position(id);
    assert(s.auth_tokens[p].id == id);
    if p < i {
        assert(s.auth_tokens[p].id != s.auth_tokens[i].id);
    } else if i < p {
        assert(s.auth_tokens[i].id != s.auth_tokens[p].id);
    }
}

impl Registry {
    /// Where in the table the token with this id stands.
    pub(crate) fn token_index(&self, id: &str) -> (found: Option<usize>)
        ensures
            match found {
                Some(i) => i < self@.auth_tokens.len() && self@.auth_tokens[i as int].id == id@
                    && self@.has_token(id@) && self@.token_position(id@) == i,
                None => !self@.has_token(id@),
            },
    {
        proof {
            use_type_invariant(self);
        }
        let key = id.to_owned();
        let mut i: usize = 0;
        while i < self.auth_tokens.len()
            invariant
                i <= self.auth_tokens.len(),
                key@ == id@,
                self@.wf(),
                forall|j: int| 0 <= j < i ==> (#[trigger] self@.auth_tokens[j]).id != id@,
            decreases self.auth_tokens.len() - i,
        {
            if self.auth_tokens[i].id == key {
                proof {
                    lemma_token_position(self@, i as int);
                }
                return Some(i);
            }
            i += 1;
        }
        None
    }
}

impl AuthToken {
    /// Stores `auth_token`, unless a token with its id is stored already.
    pub fn create(auth_token: &AuthToken, store: &mut Registry) -> (result: Result<(), RegistryError>)
        ensures
            result == old(store)@.token_create_result(auth_token@),
            final(store)@ == old(store)@.token_created(auth_token@),
            final(store)@.wf(),
    {
        proof {
            use_type_invariant(&*store);
            law_token_created_wf(store@, auth_token@);
        }
        match store.token_index(auth_token.id.as_str()) {
            Some(_) => Err(RegistryError::UniqueConstraintViolation),
            None => {
                let mut rows = store.take_tokens();
                rows.push(auth_token.duplicate());
                proof {
                    assert(rows_view(rows@) =~= old(store)@.auth_tokens.push(auth_token@));
                }
                store.put_tokens(rows);
                Ok(())
            },
        }
    }

    /// The token stored under `id`, or [`RegistryError::NotFound`].
    pub fn read(id: &str, store: &Registry) -> (result: Result<AuthToken, RegistryError>)
        ensures
            ok_view(result) == required(store@.token(id@)),
    {
        match AuthToken::read_opt(id, store) {
            Ok(found) => or_not_found(found),
            Err(e) => Err(e),
        }
    }

    /// The token stored under `id`, or `None` where there is none.
    pub fn read_opt(id: &str, store: &Registry) -> (result: Result<Option<AuthToken>, RegistryError>)
        ensures
            ok_some_view(result) == Ok::<Option<AuthTokenView>, RegistryError>(store@.token(id@)),
    {
        match store.token_index(id) {
            Some(i) => Ok(Some(store.auth_tokens[i].duplicate())),
            None => Ok(None),
        }
    }

    /// Removes the token stored under `id`. Where there is none, nothing changes.
    pub fn delete(id: &str, store: &mut Registry) -> (result: Result<(), RegistryError>)
        ensures
            result == Ok::<(), RegistryError>(()),
            final(store)@ == old(store)@.token_deleted(id@),
            final(store)@.wf(),
    {
        proof {
            use_type_invariant(&*store);
            law_token_deleted_wf(store@, id@);
        }
        match store.token_index(id) {
            Some(i) => {
                let mut rows = store.take_tokens();
                let _ = rows.remove(i);
                proof {
                    assert(rows_view(rows@) =~= old(store)@.auth_tokens.remove(i as int));
                }
                store.put_tokens(rows);
            },
            None => {},
        }
        Ok(())
    }
}

} // verus!
