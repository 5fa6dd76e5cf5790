# helpdesk

A help-desk ticketing service: clients submit tickets, supervisors assign
them to employees, employees complete them.

- `src/` is the verified library (Verus):
  - `authentication` — the session keyring (a bimap of e-mail to session
    identifier, kept one-to-one), password hashing with scrypt, session
    cookies, and the authentication of a request by cookie or credentials.
  - `db` — the database records and the rows that the service inserts.
  - `pages` — what each endpoint answers, given what was read for it.
- `app/` is the Rocket web server and the Diesel queries around the library.
- `tests/` exercises the library.
