use rust_rest::model::user::User;
use rust_rest::server::{read_request, response_bytes, Command, Event, Exchange, Handler, Payload};
use rust_rest::store::{Outcome, Query};
use rust_rest::{INTERNAL_SERVER_ERROR, NOT_FOUND, OK_RESPONSE};

/// A table in memory that answers as a working store does.
struct Table {
    rows: Vec<User>,
    next_id: i32,
    asked: Vec<Query>,
}

impl Table {
    fn new() -> Table {
        Table { rows: Vec::new(), next_id: 1, asked: Vec::new() }
    }

    fn answer(&mut self, query: &Query) -> Outcome {
        self.asked.push(query.clone());
        match query {
            Query::Insert { name, email } => {
                let id = self.next_id;
                self.next_id += 1;
                self.rows.push(User { id: Some(id), name: name.clone(), email: email.clone() });
                Outcome::Affected(1)
            }
            Query::SelectOne { id } => {
                Outcome::Rows(self.rows.iter().filter(|row| row.id == Some(*id)).cloned().collect())
            }
            Query::SelectAll => Outcome::Rows(self.rows.clone()),
            Query::Update { id, name, email } => {
                let mut count = 0;
                for row in self.rows.iter_mut() {
                    if row.id == Some(*id) {
                        row.name = name.clone();
                        row.email = email.clone();
                        count += 1;
                    }
                }
                Outcome::Affected(count)
            }
            Query::Delete { id } => {
                let before = self.rows.len();
                self.rows.retain(|row| row.id != Some(*id));
                Outcome::Affected((before - self.rows.len()) as u64)
            }
        }
    }
}

fn decode(body: &str) -> Option<User> {
    let value: serde_json::Value = serde_json::from_str(body).ok()?;
    let id = match value.get("id") {
        None | Some(serde_json::Value::Null) => None,
        Some(id) => Some(i32::try_from(id.as_i64()?).ok()?),
    };
    let name = value.get("name")?.as_str()?.to_string();
    let email = value.get("email")?.as_str()?.to_string();
    Some(User { id, name, email })
}

fn encode_one(user: &User) -> Option<String> {
    let id = match user.id {
        Some(id) => id.to_string(),
        None => String::from("null"),
    };
    let name = serde_json::to_string(&user.name).ok()?;
    let email = serde_json::to_string(&user.email).ok()?;
    Some(format!("{{\"id\":{},\"name\":{},\"email\":{}}}", id, name, email))
}

fn encode(payload: &Payload) -> Option<String> {
    match payload {
        Payload::One(user) => encode_one(user),
        Payload::All(users) => {
            let mut parts = Vec::new();
            for user in users {
                parts.push(encode_one(user)?);
            }
            Some(format!("[{}]", parts.join(",")))
        }
    }
}

/// Runs one exchange to its end and gives back the bytes that were sent.
fn serve(handler: &Handler, table: &mut Table, request: &[u8]) -> Vec<u8> {
    let mut state = Exchange::Idle;
    let mut event = Event::Request(read_request(request));
    let mut steps = 0;
    loop {
        steps += 1;
        assert!(steps <= 4, "an exchange takes at most four steps");
        let (next, command) = handler.handle(state, event);
        state = next;
        event = match command {
            Command::Decode(body) => Event::Decoded(decode(&body)),
            Command::Ask { url, query } => {
                assert_eq!(url, handler.database_url());
                Event::Answered(table.answer(&query))
            }
            Command::Encode(payload) => Event::Encoded(encode(&payload)),
            Command::Reply { status_line, content } => {
                assert_eq!(state, Exchange::Closed);
                return response_bytes(&status_line, &content);
            }
            Command::Hangup => return Vec::new(),
        };
    }
}

fn text(handler: &Handler, table: &mut Table, request: &str) -> String {
    String::from_utf8(serve(handler, table, request.as_bytes())).unwrap()
}

fn handler() -> Handler {
    Handler::new(String::from("postgres://db/users"))
}

fn ok(content: &str) -> String {
    format!("{}{}", OK_RESPONSE, content)
}

fn not_found(content: &str) -> String {
    format!("{}{}", NOT_FOUND, content)
}

fn error() -> String {
    format!("{}Error", INTERNAL_SERVER_ERROR)
}

#[test]
fn post_then_get_all_lists_the_new_record() {
    let h = handler();
    let mut table = Table::new();
    let created = text(
        &h,
        &mut table,
        "POST /users HTTP/1.1\r\nContent-Type: application/json\r\n\r\n{\"name\":\"Ann\",\"email\":\"ann@x.com\"}",
    );
    assert_eq!(created, "HTTP/1.1 200 OK\r\n\r\nUser created");
    let listed = text(&h, &mut table, "GET /users HTTP/1.1\r\n\r\n");
    assert_eq!(listed, ok("[{\"id\":1,\"name\":\"Ann\",\"email\":\"ann@x.com\"}]"));
    let body = listed.strip_prefix(OK_RESPONSE).unwrap();
    let value: serde_json::Value = serde_json::from_str(body).unwrap();
    let list = value.as_array().unwrap();
    assert_eq!(list.len(), 1);
    assert_eq!(list[0].get("name").unwrap().as_str(), Some("Ann"));
}

#[test]
fn get_of_absent_id_is_not_found() {
    let h = handler();
    let mut table = Table::new();
    assert_eq!(
        text(&h, &mut table, "GET /users/999 HTTP/1.1\r\n\r\n"),
        "HTTP/1.1 404 NOT FOUND\r\n\r\nUser not found"
    );
    assert_eq!(table.asked, vec![Query::SelectOne { id: 999 }]);
}

#[test]
fn put_then_get_shows_the_new_name_and_email() {
    let h = handler();
    let mut table = Table::new();
    text(&h, &mut table, "POST /users HTTP/1.1\r\n\r\n{\"name\":\"Ann\",\"email\":\"ann@x.com\"}");
    let updated = text(
        &h,
        &mut table,
        "PUT /users/1 HTTP/1.1\r\n\r\n{\"name\":\"Bob\",\"email\":\"b@x.com\"}",
    );
    assert_eq!(updated, "HTTP/1.1 200 OK\r\n\r\nUser updated");
    assert_eq!(
        text(&h, &mut table, "GET /users/1 HTTP/1.1\r\n\r\n"),
        ok("{\"id\":1,\"name\":\"Bob\",\"email\":\"b@x.com\"}")
    );
}

#[test]
fn unrecognized_method_is_not_found() {
    let h = handler();
    let mut table = Table::new();
    assert_eq!(
        text(&h, &mut table, "PATCH /users/1 HTTP/1.1\r\n\r\n"),
        "HTTP/1.1 404 NOT FOUND\r\n\r\n404 not found"
    );
    assert_eq!(text(&h, &mut table, "GET /accounts HTTP/1.1\r\n\r\n"), not_found("404 not found"));
    assert!(table.asked.is_empty());
}

#[test]
fn created_record_is_read_back_by_its_id() {
    let h = handler();
    let mut table = Table::new();
    for (name, email) in [("Ann", "ann@x.com"), ("Bob", "b@x.com"), ("Zoë \"Z\"", "z\\q@x.com")] {
        let body = format!(
            "{{\"name\":{},\"email\":{}}}",
            serde_json::to_string(name).unwrap(),
            serde_json::to_string(email).unwrap()
        );
        let created = text(&h, &mut table, &format!("POST /users HTTP/1.1\r\n\r\n{}", body));
        assert_eq!(created, ok("User created"));
        let id = table.rows.last().unwrap().id.unwrap();
        let read = text(&h, &mut table, &format!("GET /users/{} HTTP/1.1\r\n\r\n", id));
        let record = decode(read.strip_prefix(OK_RESPONSE).unwrap()).unwrap();
        assert_eq!(record, User { id: Some(id), name: name.to_string(), email: email.to_string() });
    }
    assert_eq!(table.rows.len(), 3);
}

#[test]
fn missing_id_read_delete_update() {
    let h = handler();
    let mut table = Table::new();
    text(&h, &mut table, "POST /users HTTP/1.1\r\n\r\n{\"name\":\"Ann\",\"email\":\"ann@x.com\"}");
    let before = table.rows.clone();
    assert_eq!(text(&h, &mut table, "GET /users/5 HTTP/1.1\r\n\r\n"), not_found("User not found"));
    assert_eq!(text(&h, &mut table, "DELETE /users/5 HTTP/1.1\r\n\r\n"), not_found("User not found"));
    assert_eq!(
        text(&h, &mut table, "PUT /users/5 HTTP/1.1\r\n\r\n{\"name\":\"Bob\",\"email\":\"b@x.com\"}"),
        ok("User updated")
    );
    assert_eq!(table.rows, before);
}

#[test]
fn read_all_of_empty_store_is_an_empty_list() {
    let h = handler();
    let mut table = Table::new();
    assert_eq!(text(&h, &mut table, "GET /users HTTP/1.1\r\n\r\n"), "HTTP/1.1 200 OK\r\n\r\n[]");
}

#[test]
fn second_delete_is_not_found() {
    let h = handler();
    let mut table = Table::new();
    text(&h, &mut table, "POST /users HTTP/1.1\r\n\r\n{\"name\":\"Ann\",\"email\":\"ann@x.com\"}");
    text(&h, &mut table, "POST /users HTTP/1.1\r\n\r\n{\"name\":\"Bob\",\"email\":\"b@x.com\"}");
    assert_eq!(text(&h, &mut table, "DELETE /users/1 HTTP/1.1\r\n\r\n"), ok("User deleted"));
    assert_eq!(text(&h, &mut table, "DELETE /users/1 HTTP/1.1\r\n\r\n"), not_found("User not found"));
    assert_eq!(text(&h, &mut table, "GET /users/1 HTTP/1.1\r\n\r\n"), not_found("User not found"));
    assert_eq!(
        text(&h, &mut table, "GET /users HTTP/1.1\r\n\r\n"),
        ok("[{\"id\":2,\"name\":\"Bob\",\"email\":\"b@x.com\"}]")
    );
}

#[test]
fn record_body_survives_decode_and_encode() {
    let body = "{\"name\":\"Ann\",\"email\":\"ann@x.com\"}";
    let record = decode(body).unwrap();
    assert_eq!(record, User { id: None, name: "Ann".to_string(), email: "ann@x.com".to_string() });
    let again = decode(&encode(&Payload::One(record.clone())).unwrap()).unwrap();
    assert_eq!(again.name, record.name);
    assert_eq!(again.email, record.email);
}

#[test]
fn supplied_id_is_ignored_on_create() {
    let h = handler();
    let mut table = Table::new();
    let created = text(
        &h,
        &mut table,
        "POST /users HTTP/1.1\r\n\r\n{\"id\":42,\"name\":\"Ann\",\"email\":\"ann@x.com\"}",
    );
    assert_eq!(created, ok("User created"));
    assert_eq!(
        table.asked,
        vec![Query::Insert { name: "Ann".to_string(), email: "ann@x.com".to_string() }]
    );
    assert_eq!(table.rows[0].id, Some(1));
}

#[test]
fn bad_body_or_bad_id_is_an_internal_error() {
    let h = handler();
    let mut table = Table::new();
    assert_eq!(text(&h, &mut table, "POST /users HTTP/1.1\r\n\r\n{\"name\":\"Ann\"}"), error());
    assert_eq!(text(&h, &mut table, "POST /users HTTP/1.1\r\n\r\n"), error());
    assert_eq!(text(&h, &mut table, "PUT /users/1 HTTP/1.1\r\n\r\nnot json"), error());
    assert_eq!(text(&h, &mut table, "PUT /users/one HTTP/1.1\r\n\r\n{}"), error());
    assert_eq!(text(&h, &mut table, "GET /users/one HTTP/1.1\r\n\r\n"), error());
    assert_eq!(text(&h, &mut table, "DELETE /users/one HTTP/1.1\r\n\r\n"), error());
    assert!(table.asked.is_empty());
}

#[test]
fn bytes_that_are_not_utf8_are_served_all_the_same() {
    let h = handler();
    let mut table = Table::new();
    let mut request = b"GET /users HTTP/1.1\r\nX: ".to_vec();
    request.push(0xFF);
    request.extend_from_slice(b"\r\n\r\n");
    assert_eq!(serve(&h, &mut table, &request), b"HTTP/1.1 200 OK\r\n\r\n[]".to_vec());
}

#[test]
fn a_request_beyond_the_limit_is_cut_off() {
    let h = handler();
    let mut table = Table::new();
    let head = "POST /users HTTP/1.1\r\n\r\n";
    let name = "a".repeat(2000);
    let request = format!("{}{{\"name\":\"{}\",\"email\":\"e\"}}", head, name);
    assert_eq!(text(&h, &mut table, &request), error());
    assert!(table.rows.is_empty());
}
