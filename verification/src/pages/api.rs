//! The answers of the JSON and form endpoints.

use crate::authentication::Session;
use crate::db::{Account, DbError, Department, Message, NewAssignment, Ticket};
use vstd::prelude::*;
use vstd::string::StringExecFns;

verus! {

/// The HTTP statuses that the endpoints answer with.
#[derive(Debug, Clone, Copy, PartialEq, Eq, Structural)]
pub enum HttpStatus {
    Accepted,
    BadRequest,
    Unauthorized,
    InternalServerError,
}

impl HttpStatus {
    /// The status code.
    pub fn code(&self) -> (code: u16)
        ensures
            code == match *self {
                HttpStatus::Accepted => 202u16,
                HttpStatus::BadRequest => 400u16,
                HttpStatus::Unauthorized => 401u16,
                HttpStatus::InternalServerError => 500u16,
            },
    {
        match self {
            HttpStatus::Accepted => 202,
            HttpStatus::BadRequest => 400,
            HttpStatus::Unauthorized => 401,
            HttpStatus::InternalServerError => 500,
        }
    }
}

/// A status with a text body.
pub struct Reply {
    pub status: HttpStatus,
    pub body: String,
}

/// Where a login sends the user: to the dashboard when it opened a session,
/// else back with an error message.
pub fn login_target(session: &Option<Session>) -> (target: Result<&'static str, &'static str>)
    ensures
        session is Some ==> target is Ok && target->Ok_0@ == "/dashboard"@,
        session is None ==> target is Err && target->Err_0@ == "Failed to login."@,
{
    match session {
        Some(_) => Ok("/dashboard"),
        None => Err("Failed to login."),
    }
}

/// The decimal digits of `n`.
pub open spec fn digits(n: nat) -> Seq<char>
    decreases n,
{
    if n < 10 {
        seq![digit(n)]
    } else {
        digits(n / 10).push(digit(n % 10))
    }
}

/// The character of the digit `d`.
pub open spec fn digit(d: nat) -> char {
    (48 + d) as char
}

/// `n` written in decimal, with a leading `-` when it is negative.
pub open spec fn decimal(n: int) -> Seq<char> {
    if n < 0 {
        seq!['-'] + digits((-n) as nat)
    } else {
        digits(n as nat)
    }
}

/// The one-character text of the decimal digit `d`.
fn digit_text(d: u64) -> (text: &'static str)
    requires
        d < 10,
    ensures
        text@ == seq![digit(d as nat)],
{
    proof {
        reveal_strlit("0");
        reveal_strlit("1");
        reveal_strlit("2");
        reveal_strlit("3");
        reveal_strlit("4");
        reveal_strlit("5");
        reveal_strlit("6");
        reveal_strlit("7");
        reveal_strlit("8");
        reveal_strlit("9");
    }
    if d == 0 {
        "0"
    } else if d == 1 {
        "1"
    } else if d == 2 {
        "2"
    } else if d == 3 {
        "3"
    } else if d == 4 {
        "4"
    } else if d == 5 {
        "5"
    } else if d == 6 {
        "6"
    } else if d == 7 {
        "7"
    } else if d == 8 {
        "8"
    } else {
        "9"
    }
}

/// Appends the decimal digits of `m` to `text`.
fn push_digits(text: &mut String, m: u64)
    ensures
        final(text)@ == old(text)@ + digits(m as nat),
    decreases m,
{
    if m >= 10 {
        push_digits(text, m / 10);
    }
    text.append(digit_text(m % 10));
    proof {
        if m >= 10 {
            assert(old(text)@ + digits(m as nat) =~= old(text)@ + digits((m / 10) as nat) + seq![
                digit((m % 10) as nat),
            ]);
        } else {
            assert(digits(m as nat) =~= seq![digit((m % 10) as nat)]);
        }
    }
}

/// `n` written in decimal, with a leading `-` when it is negative.
fn decimal_text(n: i32) -> (text: String)
    ensures
        text@ == decimal(n as int),
{
    let mut text = String::new();
    if n < 0 {
        proof {
            reveal_strlit("-");
        }
        text.append("-");
        push_digits(&mut text, (0i64 - (n as i64)) as u64);
    } else {
        push_digits(&mut text, n as u64);
    }
    text
}

/// The answer to a ticket submission: the new ticket's number, or an error
/// where the account, a message or the ticket could not be stored.
pub fn submit_ticket_reply(ticket: Option<&Ticket>) -> (reply: Reply)
    ensures
        match ticket {
            Some(t) => reply.status == HttpStatus::Accepted && reply.body@ == decimal(t.id as int),
            None => reply.status == HttpStatus::InternalServerError && reply.body@
                == "Could not create the ticket."@,
        },
{
    match ticket {
        Some(t) => Reply { status: HttpStatus::Accepted, body: decimal_text(t.id) },
        None => Reply {
            status: HttpStatus::InternalServerError,
            body: "Could not create the ticket.".to_owned(),
        },
    }
}

/// The values of the lookups that found something, in order.
pub open spec fn found<T>(lookups: Seq<Option<T>>) -> Seq<T>
    decreases lookups.len(),
{
    if lookups.len() == 0 {
        Seq::empty()
    } else {
        let rest = found(lookups.drop_last());
        match lookups.last() {
            Some(x) => rest.push(x),
            None => rest,
        }
    }
}

/// The unassigned tickets to list: those of the lookups that found their
/// ticket, in order; none where the unassigned tickets could not be listed.
pub fn unassigned_list(lookups: Option<&Vec<Option<Ticket>>>) -> (tickets: Vec<Ticket>)
    ensures
        tickets@ == match lookups {
            Some(v) => found(v@),
            None => Seq::empty(),
        },
{
    let mut tickets: Vec<Ticket> = Vec::new();
    match lookups {
        Some(v) => {
            let mut i: usize = 0;
            while i < v.len()
                invariant
                    i <= v@.len(),
                    tickets@ == found(v@.take(i as int)),
                decreases v@.len() - i,
            {
                assert(v@.take(i as int + 1).drop_last() =~= v@.take(i as int));
                match v[i] {
                    Some(t) => tickets.push(t),
                    None => {},
                }
                i = i + 1;
            }
            assert(v@.take(i as int) =~= v@);
        },
        None => {},
    }
    tickets
}

/// The assignments that `by` makes of `ticket`, one to each assignee whose
/// account was found, in order.
pub open spec fn assignment_rows(by: i32, assignees: Seq<Option<Account>>, ticket: i32) -> Seq<
    NewAssignment,
>
    decreases assignees.len(),
{
    if assignees.len() == 0 {
        Seq::empty()
    } else {
        let rest = assignment_rows(by, assignees.drop_last(), ticket);
        match assignees.last() {
            Some(to) => rest.push(NewAssignment { assigned_by: by, assigned_to: to.id, ticket }),
            None => rest,
        }
    }
}

/// The rows that assign `ticket` from `from` to each of the assignees whose
/// account was found. Only supervisors assign tickets: where `from_dept`, the
/// department of `from`, is another one, there are no rows.
pub fn assignments(
    from: &Account,
    from_dept: Department,
    assignees: &Vec<Option<Account>>,
    ticket: &Ticket,
) -> (rows: Vec<NewAssignment>)
    ensures
        from_dept == Department::Supervisor ==> rows@ == assignment_rows(
            from.id,
            assignees@,
            ticket.id,
        ),
        from_dept != Department::Supervisor ==> rows@ == Seq::<NewAssignment>::empty(),
{
    let mut rows: Vec<NewAssignment> = Vec::new();
    if from_dept != Department::Supervisor {
        return rows;
    }
    let mut i: usize = 0;
    while i < assignees.len()
        invariant
            i <= assignees@.len(),
            rows@ == assignment_rows(from.id, assignees@.take(i as int), ticket.id),
        decreases assignees@.len() - i,
    {
        assert(assignees@.take(i as int + 1).drop_last() =~= assignees@.take(i as int));
        match &assignees[i] {
            Some(to) => rows.push(crate::db::Assignment::new(from, to, ticket)),
            None => {},
        }
        i = i + 1;
    }
    assert(assignees@.take(i as int) =~= assignees@);
    rows
}

/// The title and description of each owned ticket whose two messages were
/// both found, in order.
pub open spec fn ticket_texts(messages: Seq<(Option<Message>, Option<Message>)>) -> Seq<
    (String, String),
>
    decreases messages.len(),
{
    if messages.len() == 0 {
        Seq::empty()
    } else {
        let rest = ticket_texts(messages.drop_last());
        match messages.last() {
            (Some(title), Some(body)) => rest.push((title.content, body.content)),
            _ => rest,
        }
    }
}

/// The owned tickets to list, as (title, description) pairs; `None` where
/// the account or its tickets could not be read.
pub fn owned_ticket_texts(messages: Option<&Vec<(Option<Message>, Option<Message>)>>) -> (texts:
    Option<Vec<(String, String)>>)
    ensures
        match messages {
            Some(m) => texts is Some && texts->Some_0@ == ticket_texts(m@),
            None => texts is None,
        },
{
    match messages {
        Some(m) => {
            let mut texts: Vec<(String, String)> = Vec::new();
            let mut i: usize = 0;
            while i < m.len()
                invariant
                    i <= m@.len(),
                    texts@ == ticket_texts(m@.take(i as int)),
                decreases m@.len() - i,
            {
                assert(m@.take(i as int + 1).drop_last() =~= m@.take(i as int));
                match &m[i] {
                    (Some(title), Some(body)) => {
                        texts.push((title.content.clone(), body.content.clone()));
                    },
                    _ => {},
                }
                i = i + 1;
            }
            assert(m@.take(i as int) =~= m@);
            Some(texts)
        },
        None => None,
    }
}

/// The answer to a sign-up: `inserted` is the outcome of storing the new
/// account, `None` where its department could not be read.
pub fn create_user_reply(inserted: Option<Result<(), DbError>>) -> (reply: Reply)
    ensures
        match inserted {
            Some(Ok(_)) => reply.status == HttpStatus::Accepted && reply.body@
                == "Created account."@,
            Some(Err(DbError::UniqueViolation)) => reply.status == HttpStatus::BadRequest
                && reply.body@ == "This user is already registered."@,
            _ => reply.status == HttpStatus::InternalServerError && reply.body@
                == "Unhandled error while creating user."@,
        },
{
    match inserted {
        Some(Ok(())) => Reply { status: HttpStatus::Accepted, body: "Created account.".to_owned() },
        Some(Err(DbError::UniqueViolation)) => Reply {
            status: HttpStatus::BadRequest,
            body: "This user is already registered.".to_owned(),
        },
        _ => Reply {
            status: HttpStatus::InternalServerError,
            body: "Unhandled error while creating user.".to_owned(),
        },
    }
}

/// The text of a message, or the empty text where it was not found.
pub fn message_text(message: Option<Message>) -> (text: String)
    ensures
        match message {
            Some(m) => text == m.content,
            None => text@ == Seq::<char>::empty(),
        },
{
    match message {
        Some(m) => m.content,
        None => String::new(),
    }
}

/// The number that a text of decimal digits spells, most significant first.
pub open spec fn decimal_value(text: Seq<char>) -> int
    decreases text.len(),
{
    if text.len() == 0 {
        0
    } else {
        decimal_value(text.drop_last()) * 10 + (text.last() as int - 48)
    }
}

/// Whether `c` is one of the characters `0` to `9`.
pub open spec fn is_decimal_digit(c: char) -> bool {
    48 <= c as int <= 57
}

/// The digits of a number are decimal digits, with no leading zero, and read
/// back as that number: the text is the number's one decimal spelling.
pub proof fn law_digits_spell_the_number(n: nat)
    ensures
        digits(n).len() >= 1,
        forall|i: int| 0 <= i < digits(n).len() ==> is_decimal_digit(#[trigger] digits(n)[i]),
        digits(n)[0] == '0' ==> n == 0,
        decimal_value(digits(n)) == n,
    decreases n,
{
    if n >= 10 {
        law_digits_spell_the_number(n / 10);
        let d = digits(n);
        let rest = digits(n / 10);
        assert(d == rest.push(digit(n % 10)));
        assert(d.drop_last() =~= rest);
        assert(d[0] == rest[0]);
        assert(n == (n / 10) * 10 + n % 10);
        assert(digit(n % 10) as int == 48 + n % 10);
        assert(d.last() == digit(n % 10));
        assert(decimal_value(d) == decimal_value(rest) * 10 + (digit(n % 10) as int - 48));
        assert forall|i: int| 0 <= i < d.len() implies is_decimal_digit(#[trigger] d[i]) by {
            if i < rest.len() {
                assert(d[i] == rest[i]);
            }
        }
    } else {
        let d = digits(n);
        assert(d =~= seq![digit(n)]);
        assert(digit(n) as int == 48 + n);
        assert(d.drop_last() =~= Seq::<char>::empty());
        assert(decimal_value(d.drop_last()) == 0);
        assert(d.last() == digit(n));
        assert(decimal_value(d) == decimal_value(d.drop_last()) * 10 + (digit(n) as int - 48));
    }
}

/// A number written in decimal starts with `-` exactly when it is negative,
/// and what follows the sign reads back as its magnitude.
pub proof fn law_decimal_spells_the_number(n: int)
    ensures
        decimal(n).len() >= 1,
        (decimal(n)[0] == '-') <==> n < 0,
        n < 0 ==> decimal_value(decimal(n).drop_first()) == -n,
        n >= 0 ==> decimal_value(decimal(n)) == n,
{
    if n < 0 {
        law_digits_spell_the_number((-n) as nat);
        assert(decimal(n).drop_first() =~= digits((-n) as nat));
    } else {
        law_digits_spell_the_number(n as nat);
        assert(is_decimal_digit(digits(n as nat)[0]));
    }
}

/// How many of the lookups found something.
pub open spec fn count_found<T>(lookups: Seq<Option<T>>) -> nat
    decreases lookups.len(),
{
    if lookups.len() == 0 {
        0
    } else {
        count_found(lookups.drop_last()) + if lookups.last() is Some {
            1nat
        } else {
            0nat
        }
    }
}

/// Counting the lookups of a prefix, one lookup at a time.
proof fn lemma_count_found_prefix<T>(lookups: Seq<Option<T>>, i: int)
    requires
        0 <= i < lookups.len(),
    ensures
        count_found(lookups.take(i + 1)) == count_found(lookups.take(i)) + if lookups[i] is Some {
            1nat
        } else {
            0nat
        },
        count_found(lookups.take(i + 1)) <= count_found(lookups),
    decreases lookups.len(),
{
    assert(lookups.take(i + 1).drop_last() =~= lookups.take(i));
    if i + 1 < lookups.len() {
        let p = lookups.drop_last();
        lemma_count_found_prefix(p, i);
        assert(p.take(i + 1) =~= lookups.take(i + 1));
    } else {
        assert(lookups.take(i + 1) =~= lookups);
    }
}

/// Every value that a lookup found is listed, once, in the order of the
/// lookups: the list has one entry per successful lookup, and the value of
/// lookup `i` stands at the position given by the successful lookups before
/// it.
pub proof fn law_found_lists_every_value<T>(lookups: Seq<Option<T>>)
    ensures
        found(lookups).len() == count_found(lookups),
        forall|i: int|
            0 <= i < lookups.len() && lookups[i] is Some ==> found(lookups)[count_found(
                lookups.take(i),
            ) as int] == lookups[i]->Some_0,
    decreases lookups.len(),
{
    if lookups.len() > 0 {
        let p = lookups.drop_last();
        let n = lookups.len() - 1;
        law_found_lists_every_value(p);
        assert forall|i: int| 0 <= i < lookups.len() && lookups[i] is Some implies found(
            lookups,
        )[count_found(lookups.take(i)) as int] == lookups[i]->Some_0 by {
            if i < n {
                assert(lookups.take(i) =~= p.take(i));
                assert(lookups[i] == p[i]);
                lemma_count_found_prefix(p, i);
            } else {
                assert(lookups.take(i) =~= p);
            }
        }
    }
}

/// For a supervisor, every assignee whose account was found gets exactly one
/// row, in order, from `by` to that assignee for `ticket`; the others get
/// none.
pub proof fn law_every_found_assignee_is_assigned(
    by: i32,
    assignees: Seq<Option<Account>>,
    ticket: i32,
)
    ensures
        assignment_rows(by, assignees, ticket).len() == count_found(assignees),
        forall|i: int|
            0 <= i < assignees.len() && assignees[i] is Some ==> assignment_rows(
                by,
                assignees,
                ticket,
            )[count_found(assignees.take(i)) as int] == (NewAssignment {
                assigned_by: by,
                assigned_to: assignees[i]->Some_0.id,
                ticket,
            }),
    decreases assignees.len(),
{
    if assignees.len() > 0 {
        let p = assignees.drop_last();
        let n = assignees.len() - 1;
        law_every_found_assignee_is_assigned(by, p, ticket);
        assert forall|i: int| 0 <= i < assignees.len() && assignees[i] is Some implies assignment_rows(
            by,
            assignees,
            ticket,
        )[count_found(assignees.take(i)) as int] == (NewAssignment {
            assigned_by: by,
            assigned_to: assignees[i]->Some_0.id,
            ticket,
        }) by {
            if i < n {
                assert(assignees.take(i) =~= p.take(i));
                assert(assignees[i] == p[i]);
                lemma_count_found_prefix(p, i);
            } else {
                assert(assignees.take(i) =~= p);
            }
        }
    }
}

/// How many owned tickets had both their title and description found.
pub open spec fn count_intact(messages: Seq<(Option<Message>, Option<Message>)>) -> nat
    decreases messages.len(),
{
    if messages.len() == 0 {
        0
    } else {
        count_intact(messages.drop_last()) + if messages.last().0 is Some && messages.last().1 is Some {
            1nat
        } else {
            0nat
        }
    }
}

/// Counting the intact tickets of a prefix, one ticket at a time.
proof fn lemma_count_intact_prefix(messages: Seq<(Option<Message>, Option<Message>)>, i: int)
    requires
        0 <= i < messages.len(),
    ensures
        count_intact(messages.take(i + 1)) == count_intact(messages.take(i)) + if messages[i].0 is Some
            && messages[i].1 is Some {
            1nat
        } else {
            0nat
        },
        count_intact(messages.take(i + 1)) <= count_intact(messages),
    decreases messages.len(),
{
    assert(messages.take(i + 1).drop_last() =~= messages.take(i));
    if i + 1 < messages.len() {
        let p = messages.drop_last();
        lemma_count_intact_prefix(p, i);
        assert(p.take(i + 1) =~= messages.take(i + 1));
    } else {
        assert(messages.take(i + 1) =~= messages);
    }
}

/// Every owned ticket whose title and description were both found is listed,
/// once, in order, as the pair of their texts; the others are not.
pub proof fn law_every_intact_ticket_is_listed(messages: Seq<(Option<Message>, Option<Message>)>)
    ensures
        ticket_texts(messages).len() == count_intact(messages),
        forall|i: int|
            0 <= i < messages.len() && messages[i].0 is Some && messages[i].1 is Some
                ==> ticket_texts(messages)[count_intact(messages.take(i)) as int] == (
                messages[i].0->Some_0.content,
                messages[i].1->Some_0.content,
            ),
    decreases messages.len(),
{
    if messages.len() > 0 {
        let p = messages.drop_last();
        let n = messages.len() - 1;
        law_every_intact_ticket_is_listed(p);
        assert forall|i: int|
            0 <= i < messages.len() && messages[i].0 is Some && messages[i].1 is Some implies ticket_texts(
                messages,
            )[count_intact(messages.take(i)) as int] == (
                messages[i].0->Some_0.content,
                messages[i].1->Some_0.content,
            ) by {
            if i < n {
                assert(messages.take(i) =~= p.take(i));
                assert(messages[i] == p[i]);
                lemma_count_intact_prefix(p, i);
            } else {
                assert(messages.take(i) =~= p);
            }
        }
    }
}

} // verus!
