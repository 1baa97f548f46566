//! Sessions: one conversation scope on one platform, known by an id that is
//! derived from the scope.
use vstd::prelude::*;

use crate::clock::unix_seconds_now;
use crate::keyed::{Keyed, Record};
use crate::text::{blank, hex_bytes_text, join2, join3, numeral_text, same_text};

verus! {

/// The model of a [`SessionScope`].
#[verifier::ext_equal]
pub struct ScopeView {
    pub platform: Seq<char>,
    pub scope: Seq<char>,
}

/// The model of a [`Session`].
#[verifier::ext_equal]
pub struct SessionView {
    pub id: Seq<char>,
    pub scope: ScopeView,
    pub created_at_unix: u64,
    pub updated_at_unix: u64,
}

impl Keyed for SessionView {
    open spec fn key(self) -> Seq<char> {
        self.id
    }
}

/// A piece of a session id: the length in bytes and the bytes of `part`, both in
/// hexadecimal, each behind an underscore.
pub open spec fn id_piece(part: Seq<char>) -> Seq<char> {
    "_"@ + crate::text::numeral(vstd::utf8::encode_utf8(part).len(), 16) + ("_"@
        + crate::text::hex_bytes(vstd::utf8::encode_utf8(part)))
}

/// The session id of a scope.
pub open spec fn derived_id(scope: ScopeView) -> Seq<char> {
    "session_v1"@ + id_piece(scope.platform) + id_piece(scope.scope)
}

impl SessionView {
    /// Why this session record is unsound, if it is.
    pub open spec fn flaw(self) -> Option<Seq<char>> {
        if self.id != derived_id(self.scope) {
            Some("session "@ + self.id + " does not match derived id"@)
        } else if self.updated_at_unix < self.created_at_unix {
            Some("session "@ + self.id + " has updated_at_unix before created_at_unix"@)
        } else {
            None
        }
    }

    /// This session after a newer record of the same scope was seen: it keeps its
    /// creation time, and its last update never moves back.
    pub open spec fn refreshed(self, other: SessionView) -> SessionView {
        SessionView {
            updated_at_unix: if other.updated_at_unix > self.updated_at_unix {
                other.updated_at_unix
            } else {
                self.updated_at_unix
            },
            ..self
        }
    }
}

/// Where a conversation takes place: a platform, and a scope within it.
#[derive(Debug, PartialEq, Eq)]
pub struct SessionScope {
    pub platform: String,
    pub scope: String,
}

impl View for SessionScope {
    type V = ScopeView;

    open spec fn view(&self) -> ScopeView {
        ScopeView { platform: self.platform@, scope: self.scope@ }
    }
}

impl Clone for SessionScope {
    fn clone(&self) -> (r: Self)
        ensures
            r@ == self@,
    {
        SessionScope { platform: self.platform.clone(), scope: self.scope.clone() }
    }
}

impl SessionScope {
    /// A scope on a platform; neither name may be blank.
    pub fn new(platform: &str, scope: &str) -> (r: Result<SessionScope, String>)
        ensures
            match r {
                Ok(made) => {
                    &&& !crate::text::is_blank(platform@)
                    &&& !crate::text::is_blank(scope@)
                    &&& made@ == (ScopeView { platform: platform@, scope: scope@ })
                },
                Err(e) => if crate::text::is_blank(platform@) {
                    e@ == "session platform is empty"@
                } else {
                    crate::text::is_blank(scope@) && e@ == "session scope is empty"@
                },
            },
    {
        if blank(platform) {
            return Err("session platform is empty".to_owned());
        }
        if blank(scope) {
            return Err("session scope is empty".to_owned());
        }
        Ok(SessionScope { platform: platform.to_owned(), scope: scope.to_owned() })
    }

    pub fn platform(&self) -> (r: &str)
        ensures
            r@ == self@.platform,
    {
        self.platform.as_str()
    }

    pub fn scope(&self) -> (r: &str)
        ensures
            r@ == self@.scope,
    {
        self.scope.as_str()
    }
}

/// The id of a session.
#[derive(Debug, PartialEq, Eq)]
pub struct SessionId {
    pub text: String,
}

impl View for SessionId {
    type V = Seq<char>;

    open spec fn view(&self) -> Seq<char> {
        self.text@
    }
}

impl Clone for SessionId {
    fn clone(&self) -> (r: Self)
        ensures
            r@ == self@,
    {
        SessionId { text: self.text.clone() }
    }
}

fn id_piece_text(part: &str) -> (r: String)
    ensures
        r@ == id_piece(part@),
{
    let bytes = part.as_bytes();
    let length: usize = bytes.len();
    let head = join2("_", numeral_text(length as u64, 16).as_str());
    let tail = join2("_", hex_bytes_text(bytes).as_str());
    join2(head.as_str(), tail.as_str())
}

impl SessionId {
    /// The id that belongs to a scope.
    pub fn for_scope(scope: &SessionScope) -> (r: SessionId)
        ensures
            r@ == derived_id(scope@),
    {
        SessionId {
            text: join3(
                "session_v1",
                id_piece_text(scope.platform.as_str()).as_str(),
                id_piece_text(scope.scope.as_str()).as_str(),
            ),
        }
    }

    pub fn as_str(&self) -> (r: &str)
        ensures
            r@ == self@,
    {
        self.text.as_str()
    }

    /// Whether two ids are the same.
    pub fn same(&self, other: &SessionId) -> (r: bool)
        ensures
            r == (self@ == other@),
    {
        same_text(&self.text, &other.text)
    }
}

/// A session and when it was created and last seen.
#[derive(Debug, PartialEq, Eq)]
pub struct Session {
    pub id: SessionId,
    pub scope: SessionScope,
    pub created_at_unix: u64,
    pub updated_at_unix: u64,
}

impl View for Session {
    type V = SessionView;

    open spec fn view(&self) -> SessionView {
        SessionView {
            id: self.id@,
            scope: self.scope@,
            created_at_unix: self.created_at_unix,
            updated_at_unix: self.updated_at_unix,
        }
    }
}

impl Clone for Session {
    fn clone(&self) -> (r: Self)
        ensures
            r@ == self@,
    {
        Session {
            id: self.id.clone(),
            scope: self.scope.clone(),
            created_at_unix: self.created_at_unix,
            updated_at_unix: self.updated_at_unix,
        }
    }
}

impl Record for Session {
    fn key_text(&self) -> (r: &String) {
        &self.id.text
    }
}

/// The session that starts in `scope` at `now`.
pub open spec fn session_started(scope: ScopeView, now: u64) -> SessionView {
    SessionView { id: derived_id(scope), scope, created_at_unix: now, updated_at_unix: now }
}

impl Session {
    /// A session that starts now.
    pub fn new(scope: SessionScope) -> (r: Session)
        ensures
            exists|now: u64| r@ == #[trigger] session_started(scope@, now),
    {
        Session::new_at(scope, unix_seconds_now())
    }

    /// A session that starts at `now`.
    pub fn new_at(scope: SessionScope, now: u64) -> (r: Session)
        ensures
            r@ == session_started(scope@, now),
    {
        Session {
            id: SessionId::for_scope(&scope),
            scope,
            created_at_unix: now,
            updated_at_unix: now,
        }
    }

    pub fn id(&self) -> (r: &SessionId)
        ensures
            r@ == self@.id,
    {
        &self.id
    }

    pub fn scope(&self) -> (r: &SessionScope)
        ensures
            r@ == self@.scope,
    {
        &self.scope
    }

    pub fn created_at_unix(&self) -> (r: u64)
        ensures
            r == self@.created_at_unix,
    {
        self.created_at_unix
    }

    pub fn updated_at_unix(&self) -> (r: u64)
        ensures
            r == self@.updated_at_unix,
    {
        self.updated_at_unix
    }

    /// Checks the record: its id is that of its scope, and it was not last
    /// updated before it was created.
    pub fn validate(&self) -> (r: Result<(), String>)
        ensures
            crate::fault::reports(r, self@.flaw()),
    {
        let derived = SessionId::for_scope(&self.scope);
        if !self.id.same(&derived) {
            return Err(join3("session ", self.id.as_str(), " does not match derived id"));
        }
        if self.updated_at_unix < self.created_at_unix {
            return Err(
                join3("session ", self.id.as_str(), " has updated_at_unix before created_at_unix"),
            );
        }
        Ok(())
    }

    /// Whether two session records are the same in every field.
    pub fn same(&self, other: &Session) -> (r: bool)
        ensures
            r == (self@ == other@),
    {
        self.id.same(&other.id) && same_text(&self.scope.platform, &other.scope.platform)
            && same_text(&self.scope.scope, &other.scope.scope) && self.created_at_unix
            == other.created_at_unix && self.updated_at_unix == other.updated_at_unix
    }

    /// Takes over what a newer record of the same session says.
    pub fn refresh_from(&mut self, other: Session)
        ensures
            final(self)@ == old(self)@.refreshed(other@),
    {
        if other.updated_at_unix > self.updated_at_unix {
            self.updated_at_unix = other.updated_at_unix;
        }
    }
}

/// What follows the first underscore of a piece of a session id and more.
proof fn lemma_piece(part: Seq<char>, tail: Seq<char>)
    ensures
        ({
            let bytes = vstd::utf8::encode_utf8(part);
            let size = crate::text::numeral(bytes.len(), 16);
            let body = crate::text::hex_bytes(bytes);
            &&& id_piece(part) + tail == seq!['_'] + (size + (seq!['_'] + (body + tail)))
            &&& forall|i: int| 0 <= i < size.len() ==> #[trigger] size[i] != '_'
            &&& forall|i: int| 0 <= i < body.len() ==> #[trigger] body[i] != '_'
        }),
{
    reveal_strlit("_");
    let bytes = vstd::utf8::encode_utf8(part);
    let size = crate::text::numeral(bytes.len(), 16);
    let body = crate::text::hex_bytes(bytes);
    assert("_"@ =~= seq!['_']);
    crate::text::lemma_numeral_digits(bytes.len(), 16);
    crate::text::lemma_hex_digits(bytes);
    assert forall|i: int| 0 <= i < size.len() implies #[trigger] size[i] != '_' by {
        assert(crate::text::is_digit(size[i]));
    }
    assert forall|i: int| 0 <= i < body.len() implies #[trigger] body[i] != '_' by {
        assert(crate::text::is_digit(body[i]));
    }
    assert(id_piece(part) + tail =~= seq!['_'] + (size + (seq!['_'] + (body + tail))));
}

/// Different scopes have different session ids.
pub proof fn law_session_ids_tell_scopes_apart(a: ScopeView, b: ScopeView)
    requires
        derived_id(a) == derived_id(b),
    ensures
        a == b,
{
    let none = Seq::<char>::empty();
    let head = "session_v1"@;
    let a_rest = id_piece(a.platform) + id_piece(a.scope);
    let b_rest = id_piece(b.platform) + id_piece(b.scope);
    assert(derived_id(a) =~= head + a_rest);
    assert(derived_id(b) =~= head + b_rest);
    assert(a_rest =~= b_rest) by {
        assert(a_rest =~= derived_id(a).skip(head.len() as int));
        assert(b_rest =~= derived_id(b).skip(head.len() as int));
    }
    lemma_piece(a.platform, id_piece(a.scope));
    lemma_piece(b.platform, id_piece(b.scope));
    lemma_piece(a.scope, none);
    lemma_piece(b.scope, none);
    let a_bytes = vstd::utf8::encode_utf8(a.platform);
    let b_bytes = vstd::utf8::encode_utf8(b.platform);
    let a_size = crate::text::numeral(a_bytes.len(), 16);
    let b_size = crate::text::numeral(b_bytes.len(), 16);
    let a_body = crate::text::hex_bytes(a_bytes);
    let b_body = crate::text::hex_bytes(b_bytes);
    let a_tail = id_piece(a.scope);
    let b_tail = id_piece(b.scope);
    crate::text::lemma_split_first(
        '_',
        none,
        a_size + (seq!['_'] + (a_body + a_tail)),
        none,
        b_size + (seq!['_'] + (b_body + b_tail)),
    );
    crate::text::lemma_split_first('_', a_size, a_body + a_tail, b_size, b_body + b_tail);
    let a_last = vstd::utf8::encode_utf8(a.scope);
    let b_last = vstd::utf8::encode_utf8(b.scope);
    let a_last_size = crate::text::numeral(a_last.len(), 16);
    let b_last_size = crate::text::numeral(b_last.len(), 16);
    let a_last_body = crate::text::hex_bytes(a_last);
    let b_last_body = crate::text::hex_bytes(b_last);
    assert(a_tail + none =~= a_tail);
    assert(b_tail + none =~= b_tail);
    assert(a_last_body + none =~= a_last_body);
    assert(b_last_body + none =~= b_last_body);
    crate::text::lemma_split_first(
        '_',
        a_body,
        a_last_size + (seq!['_'] + a_last_body),
        b_body,
        b_last_size + (seq!['_'] + b_last_body),
    );
    crate::text::lemma_split_first('_', a_last_size, a_last_body, b_last_size, b_last_body);
    crate::text::lemma_hex_injective(a_bytes, b_bytes);
    crate::text::lemma_hex_injective(a_last, b_last);
    vstd::utf8::encode_utf8_decode_utf8(a.platform);
    vstd::utf8::encode_utf8_decode_utf8(b.platform);
    vstd::utf8::encode_utf8_decode_utf8(a.scope);
    vstd::utf8::encode_utf8_decode_utf8(b.scope);
}

} // verus!
