//! The users of the tracker and their passwords.

use vstd::prelude::*;
use vstd::string::StringExecFns;
use crate::keys::{distinct, find, holds, lemma_find_at, lemma_find_is_position, lemma_push_distinct};
use crate::text::{split, split_text, str_eq, texts};

verus! {

/// A user's name and password.
pub struct Account {
    pub username: String,
    pub password: String,
}

/// What an `Account` holds, as mathematical values.
pub struct AccountView {
    pub username: Seq<char>,
    pub password: Seq<char>,
}

impl View for Account {
    type V = AccountView;

    open spec fn view(&self) -> AccountView {
        AccountView { username: self.username@, password: self.password@ }
    }
}

/// What a sequence of accounts holds.
pub open spec fn account_views(v: Seq<Account>) -> Seq<AccountView> {
    Seq::new(v.len(), |i: int| v[i]@)
}

/// The user names of `accounts`, in order.
pub open spec fn usernames(accounts: Seq<AccountView>) -> Seq<Seq<char>> {
    Seq::new(accounts.len(), |i: int| accounts[i].username)
}

/// The password of the user of the given name, if there is such a user.
pub open spec fn password_of(accounts: Seq<AccountView>, username: Seq<char>) -> Option<Seq<char>> {
    match find(usernames(accounts), username) {
        Some(i) => Some(accounts[i].password),
        None => None,
    }
}

/// The accounts after the user of the given name is given a password: a
/// known user where it stands, a new one at the end.
pub open spec fn with_account(accounts: Seq<AccountView>, account: AccountView) -> Seq<AccountView> {
    match find(usernames(accounts), account.username) {
        Some(i) => accounts.update(i, account),
        None => accounts.push(account),
    }
}

/// The line that stands for an account: user name, password.
pub open spec fn encoded_account(account: AccountView) -> Seq<char> {
    account.username.push(',') + account.password
}

/// The accounts after the account of one line is taken in: the line's first
/// two fields are the user name and the password, further fields are
/// ignored. A line with fewer fields changes nothing.
pub open spec fn with_account_line(accounts: Seq<AccountView>, line: Seq<char>) -> Seq<AccountView> {
    let fields = split_text(line, ',');
    if fields.len() >= 2 {
        with_account(accounts, AccountView { username: fields[0], password: fields[1] })
    } else {
        accounts
    }
}

/// The users that may log in. No user name occurs twice.
pub struct UserManager {
    accounts: Vec<Account>,
}

impl View for UserManager {
    type V = Seq<AccountView>;

    closed spec fn view(&self) -> Seq<AccountView> {
        account_views(self.accounts@)
    }
}

impl UserManager {
    #[verifier::type_invariant]
    spec fn usernames_distinct(self) -> bool {
        distinct(usernames(self@))
    }

    /// No users.
    pub fn new() -> (r: UserManager)
        ensures
            r@ == Seq::<AccountView>::empty(),
    {
        let r = UserManager { accounts: Vec::new() };
        assert(r@ =~= Seq::<AccountView>::empty());
        r
    }

    /// The position of the user of the given name.
    fn position(&self, username: &str) -> (r: Option<usize>)
        ensures
            match r {
                Some(i) => find(usernames(self@), username@) == Some(i as int) && i < self@.len(),
                None => find(usernames(self@), username@) is None,
            },
    {
        proof {
            use_type_invariant(self);
        }
        let mut i: usize = 0;
        while i < self.accounts.len()
            invariant
                i <= self.accounts.len(),
                distinct(usernames(self@)),
                forall|k: int| 0 <= k < i ==> #[trigger] usernames(self@)[k] != username@,
            decreases self.accounts.len() - i,
        {
            if str_eq(self.accounts[i].username.as_str(), username) {
                proof {
                    lemma_find_at(usernames(self@), username@, i as int);
                }
                return Some(i);
            }
            i += 1;
        }
        None
    }

    /// Gives the user of the given name a password, whether or not the user
    /// is known.
    fn set_password(&mut self, username: &str, password: &str)
        ensures
            final(self)@ == with_account(
                old(self)@,
                AccountView { username: username@, password: password@ },
            ),
    {
        proof {
            use_type_invariant(&*self);
        }
        let found = self.position(username);
        let account = Account { username: username.to_owned(), password: password.to_owned() };
        let mut accounts: Vec<Account> = Vec::new();
        std::mem::swap(&mut self.accounts, &mut accounts);
        match found {
            Some(i) => {
                accounts.set(i, account);
                assert(usernames(account_views(accounts@)) =~= usernames(old(self)@));
                assert(account_views(accounts@) =~= old(self)@.update(i as int, account@));
            },
            None => {
                proof {
                    lemma_find_is_position(usernames(old(self)@), username@);
                    lemma_push_distinct(usernames(old(self)@), username@);
                }
                accounts.push(account);
                assert(usernames(account_views(accounts@)) =~= usernames(old(self)@).push(
                    username@,
                ));
                assert(account_views(accounts@) =~= old(self)@.push(account@));
            },
        }
        self.accounts = accounts;
    }

    /// Registers a new user. Returns `false`, and changes nothing, where the
    /// user name is taken.
    pub fn register_user(&mut self, username: &str, password: &str) -> (r: bool)
        ensures
            r == !holds(usernames(old(self)@), username@),
            final(self)@ == if r {
                old(self)@.push(AccountView { username: username@, password: password@ })
            } else {
                old(self)@
            },
    {
        match self.position(username) {
            Some(_) => false,
            None => {
                self.set_password(username, password);
                true
            },
        }
    }

    /// Whether there is a user of the given name with the given password.
    pub fn authenticate(&self, username: &str, password: &str) -> (r: bool)
        ensures
            r == (password_of(self@, username@) == Some(password@)),
    {
        match self.position(username) {
            Some(i) => str_eq(self.accounts[i].password.as_str(), password),
            None => false,
        }
    }

    /// Takes in the account that a line stands for; a later line for the same
    /// user replaces the password.
    pub fn load_line(&mut self, line: &str)
        ensures
            final(self)@ == with_account_line(old(self)@, line@),
    {
        let parts = split(line, ',');
        if parts.len() >= 2 {
            assert(split_text(line@, ',')[0] == parts@[0]@);
            assert(split_text(line@, ',')[1] == parts@[1]@);
            self.set_password(parts[0], parts[1]);
        }
    }

    /// The lines that stand for the accounts, in order.
    pub fn to_lines(&self) -> (r: Vec<String>)
        ensures
            texts(r@) == Seq::new(self@.len(), |i: int| encoded_account(self@[i])),
    {
        proof {
            reveal_strlit(",");
        }
        assert(","@ =~= seq![',']);
        let mut lines: Vec<String> = Vec::new();
        let mut i: usize = 0;
        while i < self.accounts.len()
            invariant
                i <= self.accounts.len(),
                ","@ == seq![','],
                lines@.len() == i,
                forall|k: int| 0 <= k < i ==> (#[trigger] lines@[k])@ == encoded_account(self@[k]),
            decreases self.accounts.len() - i,
        {
            let mut line = self.accounts[i].username.clone();
            line.append(",");
            line.append(self.accounts[i].password.as_str());
            assert(line@ =~= encoded_account(self@[i as int]));
            lines.push(line);
            i += 1;
        }
        assert(texts(lines@) =~= Seq::new(self@.len(), |i: int| encoded_account(self@[i])));
        lines
    }
}

} // verus!
