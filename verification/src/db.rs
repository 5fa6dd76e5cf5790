//! The records that the database holds, and the new records the service
//! writes into it.

use crate::authentication::{password_digest, Keyring, OUTPUT_SIZE};
use vstd::prelude::*;

verus! {

//=======================================
//              Department
//=======================================
/// A department row: its key and its name.
pub struct Dept {
    pub id: i32,
    pub dept_name: String,
}

/// A department row to insert.
pub struct NewDept<'a> {
    pub dept_name: &'a str,
}

/// The departments an account can belong to.
#[derive(Debug, Clone, Copy, PartialEq, Eq, Structural)]
pub enum Department {
    Client,
    Flunky,
    Supervisor,
}

/// The name under which a department is stored.
pub open spec fn department_name(d: Department) -> Seq<char> {
    match d {
        Department::Client => "client"@,
        Department::Flunky => "flunky"@,
        Department::Supervisor => "supervisor"@,
    }
}

/// The department a stored name stands for: any name but those of flunkies
/// and supervisors stands for clients.
pub open spec fn department_named(name: Seq<char>) -> Department {
    if name == "flunky"@ {
        Department::Flunky
    } else if name == "supervisor"@ {
        Department::Supervisor
    } else {
        Department::Client
    }
}

impl Department {
    /// The name under which the department is stored.
    pub fn as_string(&self) -> (name: &'static str)
        ensures
            name@ == department_name(*self),
    {
        match self {
            Department::Client => "client",
            Department::Flunky => "flunky",
            Department::Supervisor => "supervisor",
        }
    }
}

impl Dept {
    /// The row that registers department `name`.
    pub fn new(name: &Department) -> (row: NewDept<'static>)
        ensures
            row.dept_name@ == department_name(*name),
    {
        NewDept { dept_name: name.as_string() }
    }

    /// The department this row stands for.
    pub fn get_department_name(&self) -> (d: Department)
        ensures
            d == department_named(self.dept_name@),
    {
        if self.dept_name == "flunky".to_owned() {
            Department::Flunky
        } else if self.dept_name == "supervisor".to_owned() {
            Department::Supervisor
        } else {
            Department::Client
        }
    }
}

/// A department read back under the name it was stored under is the same
/// department.
pub proof fn law_department_name_round_trip(d: Department)
    ensures
        department_named(department_name(d)) == d,
{
    reveal_strlit("client");
    reveal_strlit("flunky");
    reveal_strlit("supervisor");
    assert("client"@[0] != "flunky"@[0]);
    assert("client"@[0] != "supervisor"@[0]);
    assert("flunky"@[0] != "supervisor"@[0]);
}

//=======================================
//              Account
//=======================================
/// An account row.
pub struct Account {
    pub id: i32,
    pub email: String,
    pub dept: i32,
    pub password_hash: Vec<u8>,
}

/// An account row to insert.
pub struct NewAccount<'a> {
    pub email: &'a str,
    pub dept: i32,
    pub password_hash: Vec<u8>,
}

/// An account as the body of a request carries it.
pub struct BodyAccount<'a> {
    pub email: &'a str,
    pub password: &'a str,
}

/// An account named in a request by someone who does not own it; it was
/// found to exist when the request was read.
pub struct GenericBodyAccount {
    pub account: Account,
}

impl Account {
    /// The row for a new account in `department`, holding the hash of its
    /// password, never the password.
    pub fn new<'a>(email: &'a str, password: &'a str, department: Dept) -> (row: NewAccount<'a>)
        ensures
            row.email@ == email@,
            row.dept == department.id,
            row.password_hash@ == password_digest(password@),
    {
        let password_hash = Keyring::hash_string(password);
        let mut bytes: Vec<u8> = Vec::new();
        let mut i: usize = 0;
        while i < OUTPUT_SIZE
            invariant
                i <= OUTPUT_SIZE,
                password_hash@.len() == OUTPUT_SIZE,
                bytes@ == password_hash@.take(i as int),
            decreases OUTPUT_SIZE - i,
        {
            bytes.push(password_hash[i]);
            i = i + 1;
            assert(bytes@ =~= password_hash@.take(i as int));
        }
        assert(bytes@ =~= password_hash@);
        NewAccount { email, dept: department.id, password_hash: bytes }
    }
}

/// The department that every account made by signing up joins.
pub fn sign_up_department() -> (d: Department)
    ensures
        d == Department::Client,
{
    Department::Client
}

/// The row for an account that signs up with `body`, in `dept`, the row read
/// for `sign_up_department()`. New accounts are always clients: there is no
/// row unless `dept` is the client department.
pub fn sign_up_account<'a>(body: &BodyAccount<'a>, dept: Dept) -> (row: Option<NewAccount<'a>>)
    ensures
        row is Some <==> dept.dept_name@ == department_name(Department::Client),
        row matches Some(r) ==> r.email@ == body.email@ && r.dept == dept.id && r.password_hash@
            == password_digest(body.password@),
{
    if dept.dept_name == sign_up_department().as_string().to_owned() {
        Some(Account::new(body.email, body.password, dept))
    } else {
        None
    }
}

/// An account made from a password accepts that password at login: the
/// hash it stores is the hash that a login with the same password computes.
pub proof fn law_new_account_accepts_its_password(password: Seq<char>, stored: &[u8])
    requires
        stored@ == password_digest(password),
    ensures
        crate::authentication::hash_accepted(password_digest(password), Some(stored)),
{
}

//=======================================
//              Message
//=======================================
/// A message row: a ticket's title or its description.
pub struct Message {
    pub id: i64,
    pub author: i32,
    pub content: String,
}

/// A message row to insert.
pub struct NewMessage<'a> {
    pub author: i32,
    pub content: &'a str,
}

impl Message {
    /// The row for a message that `author` writes.
    pub fn new<'a>(author: &'a Account, content: &'a str) -> (row: NewMessage<'a>)
        ensures
            row.author == author.id,
            row.content@ == content@,
    {
        NewMessage { author: author.id, content }
    }
}

//=======================================
//              Ticket
//=======================================
/// A ticket row: its owner and the messages that hold its title and its
/// description.
#[derive(Debug, Clone, Copy, PartialEq, Eq, Structural)]
pub struct Ticket {
    pub id: i32,
    pub owner: i32,
    pub title: i64,
    pub description: i64,
}

/// A ticket row to insert.
#[derive(Debug, Clone, Copy, PartialEq, Eq, Structural)]
pub struct NewTicket {
    pub owner: i32,
    pub title: i64,
    pub description: i64,
}

/// A ticket as the body of a request carries it.
pub struct BodyTicket<'a> {
    pub title: &'a str,
    pub body: &'a str,
}

impl Ticket {
    /// The row for a ticket that `owner` opens with the given title and
    /// description messages.
    pub fn new(owner: &Account, title: Message, desc: Message) -> (row: NewTicket)
        ensures
            row == (NewTicket { owner: owner.id, title: title.id, description: desc.id }),
    {
        NewTicket { owner: owner.id, title: title.id, description: desc.id }
    }
}

//=======================================
//              Assignment
//=======================================
/// An assignment row: who assigned which ticket to whom.
#[derive(Debug, Clone, Copy, PartialEq, Eq, Structural)]
pub struct Assignment {
    pub id: i32,
    pub assigned_by: i32,
    pub assigned_to: i32,
    pub ticket: i32,
}

/// An assignment row to insert.
#[derive(Debug, Clone, Copy, PartialEq, Eq, Structural)]
pub struct NewAssignment {
    pub assigned_by: i32,
    pub assigned_to: i32,
    pub ticket: i32,
}

/// An assignment as the body of a request carries it.
pub struct BodyAssignment {
    /// The e-mails of the accounts that the ticket is assigned to.
    pub assigned_to: Vec<String>,
    pub ticket: i32,
}

impl Assignment {
    /// The row by which `by` assigns `ticket` to `to`.
    pub fn new(by: &Account, to: &Account, ticket: &Ticket) -> (row: NewAssignment)
        ensures
            row == (NewAssignment { assigned_by: by.id, assigned_to: to.id, ticket: ticket.id }),
    {
        NewAssignment { assigned_by: by.id, assigned_to: to.id, ticket: ticket.id }
    }
}

/// How a database operation failed, as far as the service tells failures
/// apart.
#[derive(Debug, Clone, Copy, PartialEq, Eq, Structural)]
pub enum DbError {
    /// No row matched.
    NotFound,
    /// The row would break a uniqueness constraint.
    UniqueViolation,
    /// Any other failure.
    Other,
}

} // verus!
