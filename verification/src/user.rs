//! Principals: the identifier of a user and the user record itself.

use vstd::prelude::*;
use crate::text::hex_lower;

verus! {

/// What `uuid::Uuid::parse_str` makes of a text: the 128-bit value of the
/// identifier it reads, or nothing where it reads none.
pub uninterp spec fn uuid_value(text: Seq<char>) -> Option<u128>;

/// The `width` low bytes of `value`, most significant first.
pub open spec fn be_bytes(value: nat, width: nat) -> Seq<u8>
    decreases width,
{
    if width == 0 {
        Seq::empty()
    } else {
        be_bytes(value / 256, (width - 1) as nat).push((value % 256) as u8)
    }
}

/// The hyphenated lower-case form of an identifier: its sixteen bytes in
/// hexadecimal, in groups of 8, 4, 4, 4 and 12 digits.
pub open spec fn hyphenated(value: u128) -> Seq<char> {
    let digits = hex_lower(be_bytes(value as nat, 16));
    digits.subrange(0, 8) + seq!['-'] + digits.subrange(8, 12) + seq!['-'] + digits.subrange(
        12,
        16,
    ) + seq!['-'] + digits.subrange(16, 20) + seq!['-'] + digits.subrange(20, 32)
}

/// Calls `uuid::Uuid::parse_str` and hands back the value of the identifier
/// read, by `Uuid::as_u128`. Nothing is claimed beyond that the outcome is the
/// one `uuid_value` names.
#[verifier::external_body]
fn parse_uuid(text: &str) -> (value: Option<u128>)
    ensures
        value == uuid_value(text@),
{
    uuid::Uuid::parse_str(text).ok().map(|id| id.as_u128())
}

/// Builds the identifier with `uuid::Uuid::from_u128` and writes it with its
/// `Display`, which is the hyphenated lower-case form.
#[verifier::external_body]
fn format_uuid(value: u128) -> (text: String)
    ensures
        text@ == hyphenated(value),
{
    uuid::Uuid::from_u128(value).to_string()
}

/// The identifier of a principal: an opaque 128-bit value.
#[derive(Clone, Copy, Debug, PartialEq, Eq, Structural, Hash)]
pub struct UserId {
    pub value: u128,
}

impl UserId {
    /// What `parse` makes of a text.
    pub open spec fn parsed(text: Seq<char>) -> Option<UserId> {
        match uuid_value(text) {
            Some(value) => Some(UserId { value }),
            None => None,
        }
    }

    pub fn new(value: u128) -> (id: UserId)
        ensures
            id.value == value,
    {
        UserId { value }
    }

    /// Reads an identifier from its textual form.
    pub fn parse(text: &str) -> (id: Option<UserId>)
        ensures
            id == UserId::parsed(text@),
    {
        match parse_uuid(text) {
            Some(value) => Some(UserId { value }),
            None => None,
        }
    }

    /// The hyphenated lower-case form of the identifier.
    pub fn to_text(&self) -> (text: String)
        ensures
            text@ == hyphenated(self.value),
    {
        format_uuid(self.value)
    }
}

/// A principal as storage holds it. `created_at` counts microseconds since the
/// Unix epoch.
#[derive(Clone, Debug)]
pub struct User {
    pub id: UserId,
    pub email: String,
    pub avatar: String,
    pub created_at: i64,
}

/// The mathematical content of a `User`.
pub struct UserView {
    pub id: UserId,
    pub email: Seq<char>,
    pub avatar: Seq<char>,
    pub created_at: i64,
}

impl View for User {
    type V = UserView;

    open spec fn view(&self) -> UserView {
        UserView {
            id: self.id,
            email: self.email@,
            avatar: self.avatar@,
            created_at: self.created_at,
        }
    }
}

impl User {
    /// A copy with the same content.
    pub fn duplicate(&self) -> (copy: User)
        ensures
            copy@ == self@,
    {
        User {
            id: self.id,
            email: self.email.clone(),
            avatar: self.avatar.clone(),
            created_at: self.created_at,
        }
    }
}

/// Storage could not do what it was asked.
#[derive(Clone, Copy, Debug, PartialEq, Eq, Structural)]
pub struct StorageError;

/// The relation of principals after a login with `email`, and what the login
/// returns. A known address keeps its identifier and its creation time and
/// takes the new avatar. A new address is recorded under the identifier
/// `fresh`, created at `now`; where another principal already has that
/// identifier, storage refuses and nothing changes.
pub open spec fn registered(
    table: Map<Seq<char>, UserView>,
    email: Seq<char>,
    avatar: Seq<char>,
    fresh: UserId,
    now: i64,
) -> (Map<Seq<char>, UserView>, Result<UserView, StorageError>) {
    if table.dom().contains(email) {
        let user = UserView {
            id: table[email].id,
            email: table[email].email,
            avatar,
            created_at: table[email].created_at,
        };
        (table.insert(email, user), Ok(user))
    } else if exists|other: Seq<char>| table.dom().contains(other) && table[other].id == fresh {
        (table, Err(StorageError))
    } else {
        let user = UserView { id: fresh, email, avatar, created_at: now };
        (table.insert(email, user), Ok(user))
    }
}

/// The content of what a login returns.
pub open spec fn login_view(outcome: Result<User, StorageError>) -> Result<UserView, StorageError> {
    match outcome {
        Ok(user) => Ok(user@),
        Err(error) => Err(error),
    }
}

/// The relation of principals as the exchange and the guard see it: no two
/// principals share an e-mail address or an identifier.
pub struct UserTable {
    rows: Vec<User>,
}

impl UserTable {
    /// No two rows share an e-mail address or an identifier.
    pub closed spec fn wf(&self) -> bool {
        forall|i: int, j: int|
            0 <= i < j < self.rows@.len() ==> (#[trigger] self.rows@[i]).email@ != (
            #[trigger] self.rows@[j]).email@ && self.rows@[i].id != self.rows@[j].id
    }

    /// Whether row `i` is the row of `email`.
    pub closed spec fn holds(&self, i: int, email: Seq<char>) -> bool {
        0 <= i < self.rows@.len() && self.rows@[i].email@ == email
    }

    /// The relation as a map from e-mail addresses to principals.
    pub closed spec fn view(&self) -> Map<Seq<char>, UserView> {
        Map::new(
            |email: Seq<char>| exists|i: int| self.holds(i, email),
            |email: Seq<char>| self.rows@[choose|i: int| self.holds(i, email)]@,
        )
    }

    /// Every principal is recorded under its own e-mail address, and no two
    /// addresses lead to the same identifier.
    pub proof fn lemma_keys(&self, email: Seq<char>, other: Seq<char>)
        requires
            self.wf(),
            self@.dom().contains(email),
            self@.dom().contains(other),
        ensures
            self@[email].email == email,
            email != other ==> self@[email].id != self@[other].id,
    {
        let i = choose|i: int| self.holds(i, email);
        let j = choose|j: int| self.holds(j, other);
        assert(self.holds(i, email));
        assert(self.holds(j, other));
        if email != other {
            if i < j {
                assert(self.rows@[i].id != self.rows@[j].id);
            } else {
                assert(self.rows@[j].id != self.rows@[i].id);
            }
        }
    }

    proof fn lemma_row_is_entry(&self, i: int)
        requires
            self.wf(),
            0 <= i < self.rows@.len(),
        ensures
            self@.dom().contains(self.rows@[i].email@),
            self@[self.rows@[i].email@] == self.rows@[i]@,
    {
        let email = self.rows@[i].email@;
        assert(self.holds(i, email));
        let j = choose|j: int| self.holds(j, email);
        assert(self.holds(j, email));
        if i < j {
            assert(self.rows@[i].email@ != self.rows@[j].email@);
        }
        if j < i {
            assert(self.rows@[j].email@ != self.rows@[i].email@);
        }
    }

    proof fn lemma_entry_is_row(&self, email: Seq<char>) -> (i: int)
        requires
            self.wf(),
            self@.dom().contains(email),
        ensures
            self.holds(i, email),
            self@[email] == self.rows@[i]@,
    {
        let i = choose|i: int| self.holds(i, email);
        assert(self.holds(i, email));
        i
    }

    /// The empty relation.
    pub fn new() -> (table: UserTable)
        ensures
            table.wf(),
            table@ == Map::<Seq<char>, UserView>::empty(),
    {
        let table = UserTable { rows: Vec::new() };
        proof {
            assert forall|email: Seq<char>| !table@.dom().contains(email) by {
                if table@.dom().contains(email) {
                    let i = choose|i: int| table.holds(i, email);
                    assert(table.holds(i, email));
                }
            }
            assert(table@ =~= Map::<Seq<char>, UserView>::empty());
        }
        table
    }

    fn find_email(&self, email: &String) -> (at: Option<usize>)
        requires
            self.wf(),
        ensures
            match at {
                Some(i) => self.holds(i as int, email@),
                None => !self@.dom().contains(email@),
            },
    {
        let mut i: usize = 0;
        while i < self.rows.len()
            invariant
                i <= self.rows@.len(),
                forall|j: int| 0 <= j < i ==> !self.holds(j, email@),
            decreases self.rows@.len() - i,
        {
            if self.rows[i].email == *email {
                return Some(i);
            }
            i = i + 1;
        }
        proof {
            if self@.dom().contains(email@) {
                let j = choose|j: int| self.holds(j, email@);
                assert(self.holds(j, email@));
            }
        }
        None
    }

    fn find_id(&self, id: UserId) -> (at: Option<usize>)
        requires
            self.wf(),
        ensures
            match at {
                Some(i) => 0 <= i < self.rows@.len() && self.rows@[i as int].id == id,
                None => forall|email: Seq<char>|
                    self@.dom().contains(email) ==> (#[trigger] self@[email]).id != id,
            },
    {
        let mut i: usize = 0;
        while i < self.rows.len()
            invariant
                i <= self.rows@.len(),
                forall|j: int| 0 <= j < i ==> (#[trigger] self.rows@[j]).id != id,
            decreases self.rows@.len() - i,
        {
            if self.rows[i].id.value == id.value {
                return Some(i);
            }
            i = i + 1;
        }
        proof {
            assert forall|email: Seq<char>| self@.dom().contains(email) implies (
            #[trigger] self@[email]).id != id by {
                let j = self.lemma_entry_is_row(email);
                assert(self.rows@[j].id != id);
            }
        }
        None
    }
}

impl User {
    /// The principal with this identifier, if there is one.
    pub fn get(table: &UserTable, id: UserId) -> (found: Option<User>)
        requires
            table.wf(),
        ensures
            match found {
                Some(user) => user.id == id && table@.dom().contains(user@.email) && table@[user@.email]
                    == user@,
                None => forall|email: Seq<char>|
                    table@.dom().contains(email) ==> (#[trigger] table@[email]).id != id,
            },
    {
        match table.find_id(id) {
            Some(i) => {
                proof {
                    table.lemma_row_is_entry(i as int);
                }
                Some(table.rows[i].duplicate())
            },
            None => None,
        }
    }

    /// Records a login: upserts the principal by e-mail address and returns
    /// it. `fresh` is the identifier that a new principal gets, `now` its
    /// creation time.
    pub fn register_or_login(
        table: &mut UserTable,
        email: &str,
        avatar: &str,
        fresh: UserId,
        now: i64,
    ) -> (outcome: Result<User, StorageError>)
        requires
            old(table).wf(),
        ensures
            final(table).wf(),
            (final(table)@, login_view(outcome)) == registered(
                old(table)@,
                email@,
                avatar@,
                fresh,
                now,
            ),
    {
        let ghost before = *table;
        let address = String::from_str(email);
        match table.find_email(&address) {
            Some(i) => {
                let kept = table.rows[i].duplicate();
                let refreshed = User {
                    id: kept.id,
                    email: kept.email,
                    avatar: String::from_str(avatar),
                    created_at: kept.created_at,
                };
                let answer = refreshed.duplicate();
                table.rows.set(i, refreshed);
                proof {
                    before.lemma_row_is_entry(i as int);
                    assert forall|j: int| 0 <= j < table.rows@.len() implies (
                    #[trigger] table.rows@[j]).email@ == before.rows@[j].email@ && table.rows@[j].id
                        == before.rows@[j].id by {}
                    assert(table.wf()) by {
                        assert forall|a: int, b: int|
                            0 <= a < b < table.rows@.len() implies (
                        #[trigger] table.rows@[a]).email@ != (#[trigger] table.rows@[b]).email@
                            && table.rows@[a].id != table.rows@[b].id by {
                            assert(before.rows@[a].email@ != before.rows@[b].email@);
                        }
                    }
                    let target = registered(before@, email@, avatar@, fresh, now).0;
                    assert forall|k: Seq<char>| table@.dom().contains(k) <==> target.dom().contains(
                        k,
                    ) by {
                        if table@.dom().contains(k) {
                            let j = choose|j: int| table.holds(j, k);
                            assert(table.holds(j, k));
                            assert(before.holds(j, k));
                        }
                        if target.dom().contains(k) {
                            if k == email@ {
                                assert(table.holds(i as int, k));
                            } else {
                                let j = choose|j: int| before.holds(j, k);
                                assert(before.holds(j, k));
                                assert(table.holds(j, k));
                            }
                        }
                    }
                    assert forall|k: Seq<char>| table@.dom().contains(k) implies table@[k]
                        == target[k] by {
                        let j = choose|j: int| table.holds(j, k);
                        assert(table.holds(j, k));
                        table.lemma_row_is_entry(j);
                        before.lemma_row_is_entry(j);
                    }
                    assert(table@ =~= target);
                }
                Ok(answer)
            },
            None => {
                match table.find_id(fresh) {
                    Some(taken) => {
                        proof {
                            before.lemma_row_is_entry(taken as int);
                        }
                        Err(StorageError)
                    },
                    None => {
                        let user = User {
                            id: fresh,
                            email: address,
                            avatar: String::from_str(avatar),
                            created_at: now,
                        };
                        let answer = user.duplicate();
                        table.rows.push(user);
                        proof {
                            let n = before.rows@.len() as int;
                            assert forall|j: int| 0 <= j < n implies table.rows@[j]
                                == before.rows@[j] by {}
                            assert(table.wf()) by {
                                assert forall|a: int, b: int|
                                    0 <= a < b < table.rows@.len() implies (
                                #[trigger] table.rows@[a]).email@ != (
                                #[trigger] table.rows@[b]).email@ && table.rows@[a].id
                                    != table.rows@[b].id by {
                                    if b < n {
                                        assert(before.rows@[a].email@ != before.rows@[b].email@);
                                    } else {
                                        before.lemma_row_is_entry(a);
                                        if table.rows@[a].email@ == email@ {
                                            assert(before.holds(a, email@));
                                        }
                                    }
                                }
                            }
                            let target = registered(before@, email@, avatar@, fresh, now).0;
                            assert(target == before@.insert(email@, answer@));
                            assert forall|k: Seq<char>|
                                table@.dom().contains(k) <==> target.dom().contains(k) by {
                                if table@.dom().contains(k) {
                                    let j = choose|j: int| table.holds(j, k);
                                    assert(table.holds(j, k));
                                    if j < n {
                                        assert(before.holds(j, k));
                                    }
                                }
                                if target.dom().contains(k) {
                                    if k == email@ {
                                        assert(table.holds(n, k));
                                    } else {
                                        let j = choose|j: int| before.holds(j, k);
                                        assert(before.holds(j, k));
                                        assert(table.holds(j, k));
                                    }
                                }
                            }
                            assert forall|k: Seq<char>| table@.dom().contains(k) implies table@[k]
                                == target[k] by {
                                let j = choose|j: int| table.holds(j, k);
                                assert(table.holds(j, k));
                                table.lemma_row_is_entry(j);
                                if j < n {
                                    before.lemma_row_is_entry(j);
                                }
                            }
                            assert(table@ =~= target);
                        }
                        Ok(answer)
                    },
                }
            },
        }
    }
}

/// A repeated login with one e-mail address leads to the same principal: the
/// identifier and the creation time of the first login stay, whatever
/// identifier was held ready for the second, and the avatar is the latest.
pub proof fn lemma_repeated_login_keeps_the_principal(
    table: Map<Seq<char>, UserView>,
    email: Seq<char>,
    first_avatar: Seq<char>,
    second_avatar: Seq<char>,
    first_fresh: UserId,
    second_fresh: UserId,
    first_now: i64,
    second_now: i64,
)
    requires
        registered(table, email, first_avatar, first_fresh, first_now).1 is Ok,
    ensures
        ({
            let first = registered(table, email, first_avatar, first_fresh, first_now);
            let second = registered(first.0, email, second_avatar, second_fresh, second_now);
            &&& second.1 is Ok
            &&& second.1->Ok_0.id == first.1->Ok_0.id
            &&& second.1->Ok_0.created_at == first.1->Ok_0.created_at
            &&& second.1->Ok_0.avatar == second_avatar
            &&& second.0[email] == second.1->Ok_0
            &&& second.0.dom() == first.0.dom()
        }),
{
    let first = registered(table, email, first_avatar, first_fresh, first_now);
    assert(first.0.dom().contains(email));
    let second = registered(first.0, email, second_avatar, second_fresh, second_now);
    assert(second.0.dom() =~= first.0.dom());
}

} // verus!
