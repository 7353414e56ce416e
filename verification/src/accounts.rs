//! The account list and the current selection: offline accounts protected
//! by an Argon2id password hash, and Ely.by / Microsoft accounts with their
//! tokens. The program around the library keeps the list in the SQLite
//! database next to the executable.
use vstd::prelude::*;

use crate::auth::{
    offline_uuid, offline_uuid_spec, username_check, validate_username, Account, AccountKind, UsernameError,
};
use crate::lang::{tr, tr_spec, Language};
use crate::db::{argon2_verifies, hash_password, password_bytes, verify_password, HashError};
use crate::text::{chars_eq, lower, lower_str, str_eq, string_of, to_chars, trim, trim_str};

verus! {

broadcast use vstd::std_specs::vec::group_vec_axioms, vstd::seq::group_seq_axioms;

/// One stored account.
#[derive(Debug, Clone)]
pub struct AccountRec {
    pub kind: AccountKind,
    pub username: String,
    pub uuid: String,
    /// Argon2id PHC hash; empty for online accounts (they re-auth instead).
    pub password_hash: String,
    /// Online accounts: cached game token.
    pub access_token: String,
    /// Microsoft accounts: OAuth refresh token.
    pub refresh_token: String,
}

pub struct AccountView {
    pub kind: AccountKind,
    pub username: Seq<char>,
    pub uuid: Seq<char>,
    pub password_hash: Seq<char>,
    pub access_token: Seq<char>,
    pub refresh_token: Seq<char>,
}

impl View for AccountRec {
    type V = AccountView;

    open spec fn view(&self) -> AccountView {
        AccountView {
            kind: self.kind,
            username: self.username@,
            uuid: self.uuid@,
            password_hash: self.password_hash@,
            access_token: self.access_token@,
            refresh_token: self.refresh_token@,
        }
    }
}

impl AccountRec {
    /// Whether this account can be removed only after extra proof:
    /// offline needs the password, online needs a fresh login.
    pub fn is_offline(&self) -> (r: bool)
        ensures
            r == (self.kind == AccountKind::Offline),
    {
        self.kind == AccountKind::Offline
    }

    /// The account a launch uses: an account without a cached token passes
    /// its UUID instead (the offline-mode convention the game accepts).
    pub fn to_account(&self) -> (r: Account)
        ensures
            r.username@ == self.username@,
            r.uuid@ == self.uuid@,
            r.kind == self.kind,
            r.access_token@ == if self.access_token@.len() == 0 {
                self.uuid@
            } else {
                self.access_token@
            },
    {
        let token = if self.access_token.as_str().is_empty() {
            own(self.uuid.as_str())
        } else {
            own(self.access_token.as_str())
        };
        Account { username: own(self.username.as_str()), uuid: own(self.uuid.as_str()), access_token: token, kind: self.kind }
    }
}

/// The account list plus the current selection.
#[derive(Debug, Clone)]
pub struct AccountStore {
    pub accounts: Vec<AccountRec>,
    /// The username of the selected account.
    pub current: Option<String>,
    /// Path of the database behind this store.
    pub db_path: Option<String>,
}

/// Why an account cannot be added.
#[derive(Debug, Clone, Copy, PartialEq, Eq, Structural)]
pub enum AccountError {
    /// The offline username is not valid.
    Username(UsernameError),
    /// Offline accounts need a password.
    PasswordRequired,
    /// An offline account with this nickname (ASCII case ignored) exists.
    Duplicate,
    /// The password could not be hashed.
    HashFailed,
}

impl AccountError {
    /// The English text of the problem.
    pub open spec fn message_spec(self) -> Seq<char> {
        match self {
            AccountError::Username(e) => match e {
                UsernameError::TooShort => "username must be at least 3 characters"@,
                UsernameError::TooLong => "username cannot be longer than 16 characters"@,
                UsernameError::InvalidCharacter =>
                    "username may only contain letters, digits, and underscores"@,
            },
            AccountError::PasswordRequired => "a password is required for an offline account"@,
            AccountError::Duplicate => "an offline account with this nickname already exists"@,
            AccountError::HashFailed => "failed to hash the password"@,
        }
    }

    pub fn message(self) -> (r: &'static str)
        ensures
            r@ == self.message_spec(),
    {
        match self {
            AccountError::Username(e) => e.message(),
            AccountError::PasswordRequired => "a password is required for an offline account",
            AccountError::Duplicate => "an offline account with this nickname already exists",
            AccountError::HashFailed => "failed to hash the password",
        }
    }

    /// The text of the problem in the UI language.
    pub fn message_in(self, lang: Language) -> (r: String)
        ensures
            r@ == tr_spec(lang, self.message_spec()),
    {
        string_of(to_chars(tr(lang, self.message())).as_slice())
    }
}

pub open spec fn account_views(v: Seq<AccountRec>) -> Seq<AccountView> {
    v.map_values(|a: AccountRec| a@)
}

pub open spec fn opt_view(o: Option<String>) -> Option<Seq<char>> {
    match o {
        Some(s) => Some(s@),
        None => None,
    }
}

/// Some account is called `name`.
pub open spec fn has_username(accounts: Seq<AccountRec>, name: Seq<char>) -> bool {
    exists|i: int| 0 <= i < accounts.len() && (#[trigger] accounts[i]).username@ == name
}

/// The selection names one of the accounts, or nothing is selected.
pub open spec fn selects_listed(accounts: Seq<AccountView>, current: Option<Seq<char>>) -> bool {
    match current {
        None => true,
        Some(c) => exists|i: int| 0 <= i < accounts.len() && (#[trigger] accounts[i]).username == c,
    }
}

impl AccountStore {
    /// The store's invariant: the selected account, when there is one, is
    /// one of the listed accounts.
    pub open spec fn well_formed(&self) -> bool {
        selects_listed(account_views(self.accounts@), opt_view(self.current))
    }
}

/// The first position at or after `from` of an account satisfying `p`.
pub open spec fn first_where(accounts: Seq<AccountRec>, p: spec_fn(AccountRec) -> bool, from: int) -> Option<int>
    decreases accounts.len() - from,
{
    if from < 0 || from >= accounts.len() {
        None
    } else if p(accounts[from]) {
        Some(from)
    } else {
        first_where(accounts, p, from + 1)
    }
}

proof fn lemma_first_where_sound(accounts: Seq<AccountRec>, p: spec_fn(AccountRec) -> bool, from: int)
    requires
        0 <= from,
    ensures
        first_where(accounts, p, from) matches Some(k) ==> from <= k < accounts.len() && p(accounts[k]),
        first_where(accounts, p, from) is None ==> forall|k: int| from <= k < accounts.len() ==> !p(
            #[trigger] accounts[k],
        ),
    decreases accounts.len() - from,
{
    if 0 <= from < accounts.len() && !p(accounts[from]) {
        lemma_first_where_sound(accounts, p, from + 1);
    }
}

pub open spec fn named(name: Seq<char>) -> spec_fn(AccountRec) -> bool {
    |a: AccountRec| a.username@ == name
}

pub open spec fn offline_named(name: Seq<char>) -> spec_fn(AccountRec) -> bool {
    |a: AccountRec| a.kind == AccountKind::Offline && a.username@ == name
}

pub open spec fn offline_named_ignoring_case(name: Seq<char>) -> spec_fn(AccountRec) -> bool {
    |a: AccountRec| a.kind == AccountKind::Offline && lower(a.username@) == lower(name)
}

pub open spec fn online_match(kind: AccountKind, name: Seq<char>) -> spec_fn(AccountRec) -> bool {
    |a: AccountRec| a.kind == kind && a.username@ == name
}

fn own(s: &str) -> (r: String)
    ensures
        r@ == s@,
{
    string_of(to_chars(s).as_slice())
}

impl AccountStore {
    fn position(&self, name: &str) -> (r: Option<usize>)
        ensures
            match r {
                Some(i) => first_where(self.accounts@, named(name@), 0) == Some(i as int) && i
                    < self.accounts.len(),
                None => first_where(self.accounts@, named(name@), 0) is None,
            },
    {
        let mut i: usize = 0;
        while i < self.accounts.len()
            invariant
                i <= self.accounts.len(),
                first_where(self.accounts@, named(name@), 0) == first_where(
                    self.accounts@,
                    named(name@),
                    i as int,
                ),
            decreases self.accounts.len() - i,
        {
            if str_eq(self.accounts[i].username.as_str(), name) {
                return Some(i);
            }
            i += 1;
        }
        None
    }

    fn position_offline(&self, name: &str) -> (r: Option<usize>)
        ensures
            match r {
                Some(i) => first_where(self.accounts@, offline_named(name@), 0) == Some(i as int) && i
                    < self.accounts.len(),
                None => first_where(self.accounts@, offline_named(name@), 0) is None,
            },
    {
        let mut i: usize = 0;
        while i < self.accounts.len()
            invariant
                i <= self.accounts.len(),
                first_where(self.accounts@, offline_named(name@), 0) == first_where(
                    self.accounts@,
                    offline_named(name@),
                    i as int,
                ),
            decreases self.accounts.len() - i,
        {
            if self.accounts[i].kind == AccountKind::Offline && str_eq(
                self.accounts[i].username.as_str(),
                name,
            ) {
                return Some(i);
            }
            i += 1;
        }
        None
    }

    /// Restore the current selection from the settings username: selected
    /// when it names an account.
    pub fn select_saved(&mut self, name: &str)
        ensures
            final(self).accounts@ == old(self).accounts@,
            final(self).db_path == old(self).db_path,
            opt_view(final(self).current) == if name@.len() > 0 && first_where(
                old(self).accounts@,
                named(name@),
                0,
            ) is Some {
                Some(name@)
            } else {
                opt_view(old(self).current)
            },
            old(self).well_formed() ==> final(self).well_formed(),
    {
        if !name.is_empty() && self.position(name).is_some() {
            proof {
                lemma_first_where_sound(self.accounts@, named(name@), 0);
                let k = first_where(self.accounts@, named(name@), 0)->0;
                assert(account_views(self.accounts@)[k].username == name@);
            }
            self.current = Some(own(name));
        }
    }

    /// Select an account by name; false (and nothing changes) when no
    /// account has that name.
    pub fn select(&mut self, name: &str) -> (r: bool)
        ensures
            r == (first_where(old(self).accounts@, named(name@), 0) is Some),
            final(self).accounts@ == old(self).accounts@,
            final(self).db_path == old(self).db_path,
            opt_view(final(self).current) == if r {
                Some(name@)
            } else {
                opt_view(old(self).current)
            },
            old(self).well_formed() ==> final(self).well_formed(),
    {
        if self.position(name).is_some() {
            proof {
                lemma_first_where_sound(self.accounts@, named(name@), 0);
                let k = first_where(self.accounts@, named(name@), 0)->0;
                assert(account_views(self.accounts@)[k].username == name@);
            }
            self.current = Some(own(name));
            true
        } else {
            false
        }
    }

    /// The selected account: the first one with the selected username.
    pub fn current(&self) -> (r: Option<&AccountRec>)
        ensures
            match r {
                Some(a) => self.current is Some && (first_where(
                    self.accounts@,
                    named(self.current->0@),
                    0,
                ) matches Some(k) && *a == self.accounts@[k]),
                None => self.current is None || first_where(
                    self.accounts@,
                    named(self.current->0@),
                    0,
                ) is None,
            },
    {
        match &self.current {
            Some(name) => match self.position(name.as_str()) {
                Some(i) => Some(&self.accounts[i]),
                None => None,
            },
            None => None,
        }
    }

    /// The checks before an offline account is added: the name is
    /// validated (and trimmed), a password is required, and no offline
    /// account may have the same nickname ignoring ASCII case.
    fn offline_precheck(&self, name: &str, password: &str) -> (r: Result<String, AccountError>)
        ensures
            match username_check(name@) {
                Err(e) => r == Err::<String, AccountError>(AccountError::Username(e)),
                Ok(valid) => if password@.len() == 0 {
                    r == Err::<String, AccountError>(AccountError::PasswordRequired)
                } else if first_where(self.accounts@, offline_named_ignoring_case(valid), 0) is Some {
                    r == Err::<String, AccountError>(AccountError::Duplicate)
                } else {
                    r matches Ok(n) && n@ == valid
                },
            },
    {
        let valid = match validate_username(name) {
            Ok(n) => n,
            Err(e) => return Err(AccountError::Username(e)),
        };
        if password.is_empty() {
            return Err(AccountError::PasswordRequired);
        }
        let lowered = lower_str(valid.as_str());
        let mut i: usize = 0;
        while i < self.accounts.len()
            invariant
                i <= self.accounts.len(),
                lowered@ == lower(valid@),
                username_check(name@) == Ok::<Seq<char>, UsernameError>(valid@),
                password@.len() > 0,
                first_where(self.accounts@, offline_named_ignoring_case(valid@), 0) == first_where(
                    self.accounts@,
                    offline_named_ignoring_case(valid@),
                    i as int,
                ),
            decreases self.accounts.len() - i,
        {
            let a = &self.accounts[i];
            if a.kind == AccountKind::Offline && chars_eq(
                lower_str(a.username.as_str()).as_slice(),
                lowered.as_slice(),
            ) {
                assert(offline_named_ignoring_case(valid@)(self.accounts@[i as int]));
                assert(first_where(self.accounts@, offline_named_ignoring_case(valid@), i as int) == Some(
                    i as int,
                ));
                return Err(AccountError::Duplicate);
            }
            i += 1;
        }
        Ok(valid)
    }

    /// Add an offline account whose password has been hashed already
    /// (`hash` is what hashing the password gave): after the checks of
    /// [`AccountStore::add_offline`], a hash appends the account with that
    /// hash and selects it; a failed hash adds nothing.
    pub fn add_offline_hashed(&mut self, name: &str, password: &str, hash: Result<String, HashError>) -> (r:
        Result<String, AccountError>)
        ensures
            match username_check(name@) {
                Err(e) => r == Err::<String, AccountError>(AccountError::Username(e)),
                Ok(valid) => if password@.len() == 0 {
                    r == Err::<String, AccountError>(AccountError::PasswordRequired)
                } else if first_where(old(self).accounts@, offline_named_ignoring_case(valid), 0) is Some {
                    r == Err::<String, AccountError>(AccountError::Duplicate)
                } else {
                    match hash {
                        Ok(h) => r matches Ok(n) && n@ == valid && final(self).accounts@.last().password_hash@
                            == h@,
                        Err(_) => r == Err::<String, AccountError>(AccountError::HashFailed),
                    }
                },
            },
            r is Err ==> final(self).accounts@ == old(self).accounts@ && final(self).current
                == old(self).current,
            r matches Ok(n) ==> {
                &&& hash is Ok
                &&& final(self).accounts@.len() == old(self).accounts@.len() + 1
                &&& final(self).accounts@.take(old(self).accounts@.len() as int) == old(self).accounts@
                &&& final(self).accounts@.last().kind == AccountKind::Offline
                &&& final(self).accounts@.last().username@ == n@
                &&& final(self).accounts@.last().uuid@ == offline_uuid_spec(n@)
                &&& final(self).accounts@.last().password_hash@ == hash->Ok_0@
                &&& final(self).accounts@.last().access_token@.len() == 0
                &&& final(self).accounts@.last().refresh_token@.len() == 0
                &&& opt_view(final(self).current) == Some(n@)
            },
            final(self).db_path == old(self).db_path,
            old(self).well_formed() ==> final(self).well_formed(),
    {
        let valid = match self.offline_precheck(name, password) {
            Ok(v) => v,
            Err(e) => return Err(e),
        };
        let hash = match hash {
            Ok(h) => h,
            Err(_) => return Err(AccountError::HashFailed),
        };
        let uuid = offline_uuid(valid.as_str());
        let ghost old_accounts = self.accounts@;
        self.accounts.push(
            AccountRec {
                kind: AccountKind::Offline,
                username: own(valid.as_str()),
                uuid,
                password_hash: hash,
                access_token: String::new(),
                refresh_token: String::new(),
            },
        );
        assert(self.accounts@.take(old_accounts.len() as int) =~= old_accounts);
        assert(account_views(self.accounts@)[old_accounts.len() as int].username == valid@);
        self.current = Some(own(valid.as_str()));
        Ok(valid)
    }

    /// Add an offline account protected by a password (Argon2id-hashed):
    /// the name is validated, a password is required, and no other offline
    /// account may have the same nickname ignoring ASCII case. The new
    /// account is appended and selected. The password is hashed with a
    /// fresh random salt only once the checks pass; whether hashing
    /// succeeds depends on that draw, and what follows it is
    /// [`AccountStore::add_offline_hashed`].
    pub fn add_offline(&mut self, name: &str, password: &str) -> (r: Result<String, AccountError>)
        ensures
            match username_check(name@) {
                Err(e) => r == Err::<String, AccountError>(AccountError::Username(e)),
                Ok(valid) => if password@.len() == 0 {
                    r == Err::<String, AccountError>(AccountError::PasswordRequired)
                } else if first_where(old(self).accounts@, offline_named_ignoring_case(valid), 0) is Some {
                    r == Err::<String, AccountError>(AccountError::Duplicate)
                } else {
                    r == Err::<String, AccountError>(AccountError::HashFailed) || (r matches Ok(n) && n@
                        == valid)
                },
            },
            r is Err ==> final(self).accounts@ == old(self).accounts@ && final(self).current
                == old(self).current,
            r matches Ok(n) ==> {
                &&& final(self).accounts@.len() == old(self).accounts@.len() + 1
                &&& final(self).accounts@.take(old(self).accounts@.len() as int) == old(self).accounts@
                &&& final(self).accounts@.last().kind == AccountKind::Offline
                &&& final(self).accounts@.last().username@ == n@
                &&& final(self).accounts@.last().uuid@ == offline_uuid_spec(n@)
                &&& argon2_verifies(password_bytes(password@), final(self).accounts@.last().password_hash@)
                &&& final(self).accounts@.last().access_token@.len() == 0
                &&& final(self).accounts@.last().refresh_token@.len() == 0
                &&& opt_view(final(self).current) == Some(n@)
            },
            final(self).db_path == old(self).db_path,
            old(self).well_formed() ==> final(self).well_formed(),
    {
        if let Err(e) = self.offline_precheck(name, password) {
            return Err(e);
        }
        let hash = hash_password(password);
        self.add_offline_hashed(name, password, hash)
    }

    /// Add (or refresh) an online account from a fresh login: an account of
    /// the same kind and username is replaced, else the account is
    /// appended; either way it becomes the selection.
    fn upsert_online(
        &mut self,
        kind: AccountKind,
        username: &str,
        uuid: &str,
        access_token: &str,
        refresh_token: &str,
    ) -> (r: String)
        ensures
            r@ == username@,
            ({
                let rec = AccountView {
                    kind,
                    username: username@,
                    uuid: uuid@,
                    password_hash: Seq::empty(),
                    access_token: access_token@,
                    refresh_token: refresh_token@,
                };
                match first_where(old(self).accounts@, online_match(kind, username@), 0) {
                    Some(i) => account_views(final(self).accounts@) == account_views(
                        old(self).accounts@,
                    ).update(i, rec),
                    None => account_views(final(self).accounts@) == account_views(
                        old(self).accounts@,
                    ).push(rec),
                }
            }),
            opt_view(final(self).current) == Some(username@),
            final(self).db_path == old(self).db_path,
            final(self).well_formed(),
    {
        let mut existing: Option<usize> = None;
        let mut i: usize = 0;
        while i < self.accounts.len()
            invariant_except_break
                existing is None,
            invariant
                i <= self.accounts.len(),
                first_where(self.accounts@, online_match(kind, username@), 0) == first_where(
                    self.accounts@,
                    online_match(kind, username@),
                    i as int,
                ),
            ensures
                match existing {
                    Some(k) => k < self.accounts.len() && first_where(
                        self.accounts@,
                        online_match(kind, username@),
                        0,
                    ) == Some(k as int),
                    None => first_where(self.accounts@, online_match(kind, username@), 0) is None,
                },
            decreases self.accounts.len() - i,
        {
            if self.accounts[i].kind == kind && str_eq(self.accounts[i].username.as_str(), username) {
                existing = Some(i);
                break;
            }
            i += 1;
        }
        let rec = AccountRec {
            kind,
            username: own(username),
            uuid: own(uuid),
            password_hash: String::new(),
            access_token: own(access_token),
            refresh_token: own(refresh_token),
        };
        let ghost before = self.accounts@;
        match existing {
            Some(k) => {
                self.accounts.set(k, rec);
                assert(account_views(self.accounts@) =~= account_views(before).update(k as int, rec@));
                assert(account_views(self.accounts@)[k as int].username == username@);
            },
            None => {
                self.accounts.push(rec);
                assert(account_views(self.accounts@) =~= account_views(before).push(rec@));
                assert(account_views(self.accounts@)[before.len() as int].username == username@);
            },
        }
        self.current = Some(own(username));
        own(username)
    }

    /// Add an Ely.by account from a fresh login result.
    pub fn add_elyby(&mut self, username: &str, uuid: &str, access_token: &str) -> (r: String)
        ensures
            r@ == username@,
            ({
                let rec = AccountView {
                    kind: AccountKind::ElyBy,
                    username: username@,
                    uuid: uuid@,
                    password_hash: Seq::empty(),
                    access_token: access_token@,
                    refresh_token: Seq::empty(),
                };
                match first_where(old(self).accounts@, online_match(AccountKind::ElyBy, username@), 0) {
                    Some(i) => account_views(final(self).accounts@) == account_views(
                        old(self).accounts@,
                    ).update(i, rec),
                    None => account_views(final(self).accounts@) == account_views(
                        old(self).accounts@,
                    ).push(rec),
                }
            }),
            opt_view(final(self).current) == Some(username@),
            final(self).db_path == old(self).db_path,
            final(self).well_formed(),
    {
        proof {
            reveal_strlit("");
            assert(""@ =~= Seq::<char>::empty());
        }
        self.upsert_online(AccountKind::ElyBy, username, uuid, access_token, "")
    }

    /// Add (or refresh) a Microsoft account from a fresh login result.
    pub fn add_mojang(&mut self, username: &str, uuid: &str, access_token: &str, refresh_token: &str) -> (r: String)
        ensures
            r@ == username@,
            ({
                let rec = AccountView {
                    kind: AccountKind::Mojang,
                    username: username@,
                    uuid: uuid@,
                    password_hash: Seq::empty(),
                    access_token: access_token@,
                    refresh_token: refresh_token@,
                };
                match first_where(old(self).accounts@, online_match(AccountKind::Mojang, username@), 0) {
                    Some(i) => account_views(final(self).accounts@) == account_views(
                        old(self).accounts@,
                    ).update(i, rec),
                    None => account_views(final(self).accounts@) == account_views(
                        old(self).accounts@,
                    ).push(rec),
                }
            }),
            opt_view(final(self).current) == Some(username@),
            final(self).db_path == old(self).db_path,
            final(self).well_formed(),
    {
        self.upsert_online(AccountKind::Mojang, username, uuid, access_token, refresh_token)
    }

    /// Verify an offline account's password (also required to remove it):
    /// false when there is no offline account with that name.
    pub fn verify_offline_password(&self, name: &str, password: &str) -> (r: bool)
        ensures
            r == match first_where(self.accounts@, offline_named(name@), 0) {
                Some(k) => argon2_verifies(password_bytes(password@), self.accounts@[k].password_hash@),
                None => false,
            },
    {
        match self.position_offline(name) {
            Some(k) => verify_password(password, self.accounts[k].password_hash.as_str()),
            None => false,
        }
    }

    /// Whether a typed password confirms removing the offline account
    /// `name`: it is not blank, and trimmed it verifies against the account.
    pub fn confirms_removal(&self, name: &str, password: &str) -> (r: bool)
        ensures
            r == (trim(password@).len() > 0 && match first_where(self.accounts@, offline_named(name@), 0) {
                Some(k) => argon2_verifies(password_bytes(trim(password@)), self.accounts@[k].password_hash@),
                None => false,
            }),
    {
        let t = trim_str(password);
        if t.len() == 0 {
            return false;
        }
        let typed = string_of(t.as_slice());
        self.verify_offline_password(name, typed.as_str())
    }

    /// Whether a fresh login confirms removing the online account `name`:
    /// the login must be of that very account.
    pub fn relogin_confirms_removal(name: &str, logged_in: &str) -> (r: bool)
        ensures
            r == (name@ == logged_in@),
    {
        str_eq(name, logged_in)
    }

    /// The kind of the first account called `name`, for the database row
    /// to delete.
    pub fn kind_of(&self, name: &str) -> (r: Option<AccountKind>)
        ensures
            r == match first_where(self.accounts@, named(name@), 0) {
                Some(k) => Some(self.accounts@[k].kind),
                None => None,
            },
    {
        match self.position(name) {
            Some(k) => Some(self.accounts[k].kind),
            None => None,
        }
    }

    /// Remove the account called `name`, kind-aware: the records of that
    /// name and of the kind of the first account so called go (the caller
    /// has verified the password or re-authenticated first). When `name` was
    /// selected, the first remaining account becomes the selection. False
    /// when no account has that name.
    pub fn remove(&mut self, name: &str) -> (r: bool)
        ensures
            r == has_username(old(self).accounts@, name@),
            !r ==> final(self).accounts@ == old(self).accounts@ && final(self).current == old(self).current,
            r ==> ({
                let kind = old(self).accounts@[first_where(old(self).accounts@, named(name@), 0)->0].kind;
                final(self).accounts@ == old(self).accounts@.filter(
                    |a: AccountRec| !(a.kind == kind && a.username@ == name@),
                )
            }),
            r ==> opt_view(final(self).current) == if opt_view(old(self).current) == Some(name@) {
                if final(self).accounts@.len() > 0 {
                    Some(final(self).accounts@[0].username@)
                } else {
                    None
                }
            } else {
                opt_view(old(self).current)
            },
            final(self).db_path == old(self).db_path,
            old(self).well_formed() ==> final(self).well_formed(),
    {
        let kind = match self.position(name) {
            None => {
                proof {
                    lemma_first_where_sound(self.accounts@, named(name@), 0);
                    assert(!has_username(self.accounts@, name@)) by {
                        if has_username(self.accounts@, name@) {
                            let k = choose|k: int| 0 <= k < self.accounts@.len() && (#[trigger] self.accounts@[k]).username@ == name@;
                            assert(named(name@)(self.accounts@[k]));
                        }
                    }
                }
                return false;
            },
            Some(k) => {
                proof {
                    lemma_first_where_sound(self.accounts@, named(name@), 0);
                    assert(self.accounts@[k as int].username@ == name@);
                }
                self.accounts[k].kind
            },
        };
        let ghost before = self.accounts@;
        let ghost keep = |a: AccountRec| !(a.kind == kind && a.username@ == name@);
        let mut kept: Vec<AccountRec> = Vec::new();
        let mut rest: Vec<AccountRec> = Vec::new();
        std::mem::swap(&mut rest, &mut self.accounts);
        assert(rest@ == before);
        let n = rest.len();
        let mut i: usize = 0;
        assert(before.skip(0) =~= before);
        proof {
            reveal(Seq::filter);
        }
        assert(before.take(0).filter(keep) =~= Seq::<AccountRec>::empty());
        while i < n
            invariant
                n == before.len(),
                i <= n,
                rest@ == before.skip(i as int),
                keep == |a: AccountRec| !(a.kind == kind && a.username@ == name@),
                kept@ == before.take(i as int).filter(keep),
            decreases n - i,
        {
            let a = rest.remove(0);
            assert(a == before[i as int]);
            assert(rest@ =~= before.skip(i + 1));
            proof {
                assert(before.take(i + 1).drop_last() =~= before.take(i as int));
                assert(before.take(i + 1) =~= before.take(i as int).push(a));
            }
            let ghost k0 = kept@;
            assert(before.take(i + 1).last() == a);
            proof {
                reveal(Seq::filter);
            }
            if !(a.kind == kind && str_eq(a.username.as_str(), name)) {
                assert(keep(a));
                kept.push(a);
                assert(before.take(i + 1).filter(keep) == k0.push(a));
            } else {
                assert(!keep(a));
                assert(before.take(i + 1).filter(keep) == k0);
            }
            i += 1;
        }
        assert(before.take(n as int) =~= before);
        self.accounts = kept;
        let was_current = match &self.current {
            Some(c) => str_eq(c.as_str(), name),
            None => false,
        };
        if was_current {
            self.current = if self.accounts.len() > 0 {
                assert(account_views(self.accounts@)[0].username == self.accounts@[0].username@);
                Some(own(self.accounts[0].username.as_str()))
            } else {
                None
            };
        } else {
            proof {
                if old(self).well_formed() && self.current is Some {
                    let c = self.current->0@;
                    let k = choose|k: int| 0 <= k < account_views(before).len() && (#[trigger] account_views(before)[k]).username == c;
                    assert(before[k].username@ == c);
                    assert(keep(before[k]));
                    before.lemma_filter_contains(keep, k);
                    let j = choose|j: int| 0 <= j < self.accounts@.len() && self.accounts@[j] == before[k];
                    assert(account_views(self.accounts@)[j].username == c);
                }
            }
        }
        true
    }

    /// Refresh the cached tokens of the first account called `name` after a
    /// re-login; nothing changes when there is none.
    pub fn update_token(&mut self, name: &str, access_token: &str, refresh_token: &str)
        ensures
            old(self).well_formed() ==> final(self).well_formed(),
            final(self).current == old(self).current,
            final(self).db_path == old(self).db_path,
            match first_where(old(self).accounts@, named(name@), 0) {
                Some(k) => account_views(final(self).accounts@) == account_views(old(self).accounts@).update(
                    k,
                    AccountView {
                        kind: old(self).accounts@[k].kind,
                        username: old(self).accounts@[k].username@,
                        uuid: old(self).accounts@[k].uuid@,
                        password_hash: old(self).accounts@[k].password_hash@,
                        access_token: access_token@,
                        refresh_token: refresh_token@,
                    },
                ),
                None => final(self).accounts@ == old(self).accounts@,
            },
    {
        match self.position(name) {
            Some(k) => {
                let a = &self.accounts[k];
                let rec = AccountRec {
                    kind: a.kind,
                    username: own(a.username.as_str()),
                    uuid: own(a.uuid.as_str()),
                    password_hash: own(a.password_hash.as_str()),
                    access_token: own(access_token),
                    refresh_token: own(refresh_token),
                };
                let ghost before = self.accounts@;
                self.accounts.set(k, rec);
                assert(account_views(self.accounts@) =~= account_views(before).update(k as int, rec@));
                proof {
                    if old(self).well_formed() && self.current is Some {
                        let c = self.current->0@;
                        let j = choose|j: int| 0 <= j < account_views(before).len() && (#[trigger] account_views(before)[j]).username == c;
                        assert(account_views(self.accounts@)[j].username == c);
                    }
                }
            },
            None => {},
        }
    }

    /// A store over records read from the database, in row order; the
    /// first account is selected.
    pub fn from_records(accounts: Vec<AccountRec>) -> (r: AccountStore)
        ensures
            r.accounts@ == accounts@,
            opt_view(r.current) == if accounts@.len() > 0 {
                Some(accounts@[0].username@)
            } else {
                None
            },
            r.db_path is None,
            r.well_formed(),
    {
        proof {
            if accounts@.len() > 0 {
                assert(account_views(accounts@)[0].username == accounts@[0].username@);
            }
        }
        let current = if accounts.len() > 0 {
            Some(own(accounts[0].username.as_str()))
        } else {
            None
        };
        AccountStore { accounts, current, db_path: None }
    }
}

/// The kind stored under a slug; unknown slugs read as offline.
pub fn kind_from_row(slug: &str) -> (r: AccountKind)
    ensures
        r == match AccountKind::from_slug_spec(slug@) {
            Some(k) => k,
            None => AccountKind::Offline,
        },
{
    match AccountKind::from_slug(slug) {
        Some(k) => k,
        None => AccountKind::Offline,
    }
}

/// An offline account added with a password is then verified by that same
/// password: no other offline account of that name precedes it.
pub proof fn lemma_added_offline_verifies(
    before: Seq<AccountRec>,
    after: Seq<AccountRec>,
    name: Seq<char>,
    password: Seq<char>,
)
    requires
        first_where(before, offline_named_ignoring_case(name), 0) is None,
        after.len() == before.len() + 1,
        after.take(before.len() as int) == before,
        after.last().kind == AccountKind::Offline,
        after.last().username@ == name,
        argon2_verifies(password_bytes(password), after.last().password_hash@),
    ensures
        first_where(after, offline_named(name), 0) == Some(before.len() as int),
        argon2_verifies(password_bytes(password), after[before.len() as int].password_hash@),
{
    lemma_first_where_sound(before, offline_named_ignoring_case(name), 0);
    assert forall|k: int| 0 <= k < before.len() implies !offline_named(name)(#[trigger] after[k]) by {
        assert(after[k] == before[k]);
        assert(!offline_named_ignoring_case(name)(before[k]));
    }
    lemma_first_where_prefix(after, offline_named(name), 0, before.len() as int);
}

proof fn lemma_first_where_prefix(v: Seq<AccountRec>, p: spec_fn(AccountRec) -> bool, from: int, k: int)
    requires
        0 <= from <= k < v.len(),
        p(v[k]),
        forall|j: int| from <= j < k ==> !p(#[trigger] v[j]),
    ensures
        first_where(v, p, from) == Some(k),
    decreases k - from,
{
    if from < k {
        lemma_first_where_prefix(v, p, from + 1, k);
    }
}

/// An account of the legacy `accounts.json` (offline, without password).
#[derive(Debug, Clone)]
pub struct LegacyAccount {
    pub username: String,
    pub uuid: String,
}

/// The record a legacy account becomes: offline, no password or tokens.
pub open spec fn legacy_view(l: LegacyAccount) -> AccountView {
    AccountView {
        kind: AccountKind::Offline,
        username: l.username@,
        uuid: l.uuid@,
        password_hash: Seq::empty(),
        access_token: Seq::empty(),
        refresh_token: Seq::empty(),
    }
}

pub open spec fn has_offline(accounts: Seq<AccountView>, name: Seq<char>) -> bool {
    exists|i: int| 0 <= i < accounts.len() && (#[trigger] accounts[i]).kind == AccountKind::Offline
        && accounts[i].username == name
}

/// The accounts after migrating legacy ones: each legacy account, in order,
/// is appended unless an offline account of that name is already listed.
pub open spec fn migrated(accounts: Seq<AccountView>, legacy: Seq<LegacyAccount>) -> Seq<AccountView>
    decreases legacy.len(),
{
    if legacy.len() == 0 {
        accounts
    } else {
        let prev = migrated(accounts, legacy.drop_last());
        if has_offline(prev, legacy.last().username@) {
            prev
        } else {
            prev.push(legacy_view(legacy.last()))
        }
    }
}

impl AccountStore {
    /// One-time migration of the pre-database `accounts.json`: its offline
    /// accounts are added unless already present, its selection is taken
    /// when none is set, and a selection that names no account is dropped.
    /// Returns the accounts added, for the database.
    pub fn merge_legacy(&mut self, legacy: &Vec<LegacyAccount>, legacy_current: Option<String>) -> (added: Vec<
        AccountRec,
    >)
        ensures
            account_views(final(self).accounts@) == migrated(account_views(old(self).accounts@), legacy@),
            account_views(final(self).accounts@) == account_views(old(self).accounts@) + account_views(
                added@,
            ),
            ({
                let chosen = if old(self).current is None {
                    opt_view(legacy_current)
                } else {
                    opt_view(old(self).current)
                };
                opt_view(final(self).current) == match chosen {
                    Some(c) => if has_username(final(self).accounts@, c) {
                        Some(c)
                    } else {
                        None
                    },
                    None => None,
                }
            }),
            final(self).db_path == old(self).db_path,
            final(self).well_formed(),
    {
        let ghost start = account_views(self.accounts@);
        let mut added: Vec<AccountRec> = Vec::new();
        let mut i: usize = 0;
        while i < legacy.len()
            invariant
                i <= legacy.len(),
                account_views(self.accounts@) == migrated(start, legacy@.take(i as int)),
                account_views(self.accounts@) == start + account_views(added@),
                self.current == old(self).current,
                self.db_path == old(self).db_path,
            decreases legacy.len() - i,
        {
            assert(legacy@.take(i + 1).drop_last() =~= legacy@.take(i as int));
            let l = &legacy[i];
            let found = self.position_offline(l.username.as_str());
            proof {
                lemma_first_where_sound(self.accounts@, offline_named(l.username@), 0);
            }
            if found.is_none() {
                proof {
                    assert(!has_offline(account_views(self.accounts@), l.username@)) by {
                        if has_offline(account_views(self.accounts@), l.username@) {
                            let k = choose|k: int| 0 <= k < account_views(self.accounts@).len() && (
                            #[trigger] account_views(self.accounts@)[k]).kind == AccountKind::Offline
                                && account_views(self.accounts@)[k].username == l.username@;
                            assert(offline_named(l.username@)(self.accounts@[k]));
                        }
                    }
                }
                let rec = AccountRec {
                    kind: AccountKind::Offline,
                    username: own(l.username.as_str()),
                    uuid: own(l.uuid.as_str()),
                    password_hash: String::new(),
                    access_token: String::new(),
                    refresh_token: String::new(),
                };
                let copy = AccountRec {
                    kind: AccountKind::Offline,
                    username: own(l.username.as_str()),
                    uuid: own(l.uuid.as_str()),
                    password_hash: String::new(),
                    access_token: String::new(),
                    refresh_token: String::new(),
                };
                let ghost a0 = self.accounts@;
                let ghost d0 = added@;
                self.accounts.push(rec);
                added.push(copy);
                assert(account_views(self.accounts@) =~= account_views(a0).push(rec@));
                assert(account_views(added@) =~= account_views(d0).push(copy@));
                assert(rec@ == legacy_view(*l));
            } else {
                proof {
                    let k = found->0 as int;
                    assert(offline_named(l.username@)(self.accounts@[k]));
                    assert(account_views(self.accounts@)[k].kind == AccountKind::Offline);
                }
            }
            i += 1;
        }
        assert(legacy@.take(legacy.len() as int) =~= legacy@);
        if self.current.is_none() {
            self.current = legacy_current;
        }
        let keep = match &self.current {
            Some(c) => self.position(c.as_str()).is_some(),
            None => false,
        };
        proof {
            if self.current is Some {
                let c = self.current->0;
                lemma_first_where_sound(self.accounts@, named(c@), 0);
                if has_username(self.accounts@, c@) {
                    let k = choose|k: int| 0 <= k < self.accounts@.len() && (#[trigger] self.accounts@[k]).username@ == c@;
                    assert(named(c@)(self.accounts@[k]));
                }
                if first_where(self.accounts@, named(c@), 0) is Some {
                    let k = first_where(self.accounts@, named(c@), 0)->0;
                    assert(account_views(self.accounts@)[k].username == c@);
                }
            }
        }
        if !keep {
            self.current = None;
        }
        added
    }
}

} // verus!
