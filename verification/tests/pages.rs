use helpdesk::authentication::{Session, Uuid};
use helpdesk::authentication::Keyring;
use helpdesk::db::{
    sign_up_account, sign_up_department, Account, BodyAccount, DbError, Department, Dept, Message,
    NewAssignment, Ticket,
};
use helpdesk::pages::api::{
    assignments, create_user_reply, login_target, message_text, owned_ticket_texts,
    submit_ticket_reply, unassigned_list, HttpStatus,
};
use helpdesk::pages::dashboard::dashboard_page;

fn account(id: i32) -> Account {
    Account { id, email: format!("user{}@mail.com", id), dept: 1, password_hash: vec![] }
}

fn ticket(id: i32) -> Ticket {
    Ticket { id, owner: 1, title: 2, description: 3 }
}

fn message(text: &str) -> Message {
    Message { id: 1, author: 1, content: text.to_string() }
}

#[test]
fn status_codes() {
    assert_eq!(HttpStatus::Accepted.code(), 202);
    assert_eq!(HttpStatus::BadRequest.code(), 400);
    assert_eq!(HttpStatus::Unauthorized.code(), 401);
    assert_eq!(HttpStatus::InternalServerError.code(), 500);
}

#[test]
fn login_goes_to_dashboard_or_fails() {
    assert_eq!(login_target(&Some(Session(Uuid::wrap(1)))), Ok("/dashboard"));
    assert_eq!(login_target(&None), Err("Failed to login."));
}

#[test]
fn submit_ticket_answers_ticket_number() {
    let r = submit_ticket_reply(Some(&ticket(42)));
    assert_eq!(r.status, HttpStatus::Accepted);
    assert_eq!(r.body, "42");
    assert_eq!(submit_ticket_reply(Some(&ticket(0))).body, "0");
    assert_eq!(submit_ticket_reply(Some(&ticket(-7))).body, "-7");
    assert_eq!(submit_ticket_reply(Some(&ticket(i32::MIN))).body, "-2147483648");
    assert_eq!(submit_ticket_reply(Some(&ticket(i32::MAX))).body, "2147483647");
    assert_eq!(submit_ticket_reply(Some(&ticket(10))).body, "10");
    assert_eq!(submit_ticket_reply(Some(&ticket(-90210))).body, "-90210");
}

#[test]
fn submit_ticket_failure() {
    let r = submit_ticket_reply(None);
    assert_eq!(r.status, HttpStatus::InternalServerError);
    assert_eq!(r.body, "Could not create the ticket.");
}

#[test]
fn unassigned_keeps_found_tickets_in_order() {
    let lookups = vec![Some(ticket(3)), None, Some(ticket(1)), None];
    assert_eq!(unassigned_list(Some(&lookups)), vec![ticket(3), ticket(1)]);
    assert_eq!(unassigned_list(Some(&vec![])), vec![]);
    assert_eq!(unassigned_list(None), vec![]);
}

#[test]
fn assignments_for_found_accounts() {
    let assignees = vec![Some(account(5)), None, Some(account(6))];
    let rows = assignments(&account(1), Department::Supervisor, &assignees, &ticket(9));
    assert_eq!(
        rows,
        vec![
            NewAssignment { assigned_by: 1, assigned_to: 5, ticket: 9 },
            NewAssignment { assigned_by: 1, assigned_to: 6, ticket: 9 },
        ]
    );
    assert!(assignments(&account(1), Department::Supervisor, &vec![None], &ticket(9)).is_empty());
}

#[test]
fn only_supervisors_assign_tickets() {
    let assignees = vec![Some(account(5)), Some(account(6))];
    assert!(assignments(&account(1), Department::Client, &assignees, &ticket(9)).is_empty());
    assert!(assignments(&account(1), Department::Flunky, &assignees, &ticket(9)).is_empty());
    assert_eq!(assignments(&account(1), Department::Supervisor, &assignees, &ticket(9)).len(), 2);
}

#[test]
fn owned_tickets_pairs_title_and_body() {
    let lookups = vec![
        (Some(message("a")), Some(message("b"))),
        (Some(message("c")), None),
        (None, Some(message("d"))),
        (Some(message("e")), Some(message("f"))),
    ];
    assert_eq!(
        owned_ticket_texts(Some(&lookups)),
        Some(vec![("a".to_string(), "b".to_string()), ("e".to_string(), "f".to_string())])
    );
    assert_eq!(owned_ticket_texts(None), None);
    assert_eq!(owned_ticket_texts(Some(&vec![])), Some(vec![]));
}

#[test]
fn create_user_replies() {
    let r = create_user_reply(Some(Ok(())));
    assert_eq!((r.status, r.body.as_str()), (HttpStatus::Accepted, "Created account."));
    let r = create_user_reply(Some(Err(DbError::UniqueViolation)));
    assert_eq!((r.status, r.body.as_str()), (HttpStatus::BadRequest, "This user is already registered."));
    for failure in [Some(Err(DbError::Other)), Some(Err(DbError::NotFound)), None] {
        let r = create_user_reply(failure);
        assert_eq!(
            (r.status, r.body.as_str()),
            (HttpStatus::InternalServerError, "Unhandled error while creating user.")
        );
    }
}

#[test]
fn message_text_or_empty() {
    assert_eq!(message_text(Some(message("hello"))), "hello");
    assert_eq!(message_text(None), "");
}

#[test]
fn dashboard_pages() {
    assert_eq!(dashboard_page(&Department::Client), "./wwwsrc//dashboard/client.html");
    assert_eq!(dashboard_page(&Department::Supervisor), "./wwwsrc//dashboard/supervisor.html");
}

#[test]
fn create_users() {
    // create a batch of new users
    let accounts = [
        BodyAccount { email: "bob@mail.com", password: "1234" },
        BodyAccount { email: "jim@mail.com", password: "1234" },
        BodyAccount { email: "ted@mail.com", password: "1234" },
        BodyAccount { email: "guy@mail.com", password: "1234" },
        BodyAccount { email: "kyle@mail.com", password: "1234" },
        BodyAccount { email: "zack@mail.com", password: "1234" },
    ];
    assert_eq!(sign_up_department(), Department::Client);
    for acc in accounts.iter() {
        let client = Dept { id: 1, dept_name: "client".to_string() };
        let row = sign_up_account(acc, client).expect("a client row");
        assert_eq!(row.email, acc.email);
        assert_eq!(row.dept, 1);
        assert_eq!(row.password_hash, Keyring::hash_string("1234").to_vec());
        let response = create_user_reply(Some(Ok(())));
        assert_eq!(response.status, HttpStatus::Accepted);
        assert_eq!(response.status.code(), 202);
    }
}
