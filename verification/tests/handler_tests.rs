use record_log::handler::{
    append, append_values, count, current_time_secs, prune, prune_at, read_record_id,
    time_of_reading, verify_auth, ResponseError, AUTH_HEADER,
};
use serde_json::Value;

const CREATED: u64 = 1656432460;
const DAY: u64 = 24 * 60 * 60;
const OLD: &str = "{\"user\":{\"id_str\":\"1541815603606036480\"}}";

fn record(id: u64) -> String {
    format!("{{\"user\":{{\"id_str\":\"{}\"}},\"n\":{}}}", id, id % 1000)
}

fn id_created_at(secs: u64) -> u64 {
    (secs * 1000 - 1288834974657) << 22
}

fn log_of(records: &[String]) -> Vec<u8> {
    let mut text: Vec<u8> = Vec::new();
    for r in records {
        text.extend_from_slice(r.as_bytes());
        text.push(b'\n');
    }
    text
}

fn internal_text(result: Result<(), ResponseError>) -> String {
    match result {
        Err(ResponseError::Internal(text)) => text,
        other => panic!("expected an internal error, got {:?}", other),
    }
}

#[test]
fn status_codes_and_reply_bodies() {
    assert_eq!(ResponseError::Forbidden.status_code(), 403);
    assert_eq!(ResponseError::Forbidden.reply_body(), "forbidden");
    assert_eq!(ResponseError::InvalidJson.status_code(), 400);
    assert_eq!(ResponseError::InvalidJson.reply_body(), "invalid json");
    let internal = ResponseError::Internal("disk on fire".to_string());
    assert_eq!(internal.status_code(), 500);
    assert_eq!(internal.reply_body(), "internal server error");
}

#[test]
fn reply_body_never_leaks_the_diagnostic() {
    let internal = ResponseError::Internal("secret path /etc/shadow".to_string());
    assert!(!internal.reply_body().contains("secret"));
}

#[test]
fn auth_admits_the_secret() {
    assert_eq!(verify_auth(b"hunter2", Some(b"hunter2")), Ok(()));
    assert_eq!(verify_auth(b"", Some(b"")), Ok(()));
}

#[test]
fn auth_turns_down_a_missing_header() {
    assert_eq!(verify_auth(b"hunter2", None), Err(ResponseError::Forbidden));
    assert_eq!(verify_auth(b"", None), Err(ResponseError::Forbidden));
}

#[test]
fn auth_turns_down_another_value() {
    assert_eq!(verify_auth(b"hunter2", Some(b"hunter3")), Err(ResponseError::Forbidden));
    assert_eq!(verify_auth(b"hunter2", Some(b"hunter")), Err(ResponseError::Forbidden));
    assert_eq!(verify_auth(b"hunter2", Some(b"hunter22")), Err(ResponseError::Forbidden));
    assert_eq!(verify_auth(b"hunter2", Some(b"Hunter2")), Err(ResponseError::Forbidden));
    assert_eq!(verify_auth(b"hunter2", Some(b"")), Err(ResponseError::Forbidden));
    assert_eq!(verify_auth(b"", Some(b"x")), Err(ResponseError::Forbidden));
}

#[test]
fn auth_compares_bytes_that_are_no_text() {
    assert_eq!(verify_auth(&[0xff, 0x00, 0x80], Some(&[0xff, 0x00, 0x80])), Ok(()));
    assert_eq!(
        verify_auth(&[0xff, 0x00, 0x80], Some(&[0xff, 0x00, 0x81])),
        Err(ResponseError::Forbidden)
    );
}

#[test]
fn count_of_an_empty_log_is_zero() {
    assert_eq!(count(b""), "0");
}

#[test]
fn count_reports_the_lines_in_decimal() {
    assert_eq!(count(b"{}\n"), "1");
    assert_eq!(count(b"{}\n{}\n{}\n"), "3");
    assert_eq!(count(b"{}\n{}"), "2");
    let twelve = "x\n".repeat(12);
    assert_eq!(count(twelve.as_bytes()), "12");
}

#[test]
fn append_writes_each_value_compactly_on_its_line() {
    let mut text: Vec<u8> = Vec::new();
    let body = b"{ \"a\" : 1 }\n[1, 2,\n 3]  \"x\" 4 null true";
    assert_eq!(append(&mut text, body), Ok(()));
    assert_eq!(text, b"{\"a\":1}\n[1,2,3]\n\"x\"\n4\nnull\ntrue\n");
}

#[test]
fn append_needs_no_delimiter_between_values() {
    let mut text: Vec<u8> = Vec::new();
    assert_eq!(append(&mut text, b"{\"a\":1}{\"b\":2}[]\"s\""), Ok(()));
    assert_eq!(text, b"{\"a\":1}\n{\"b\":2}\n[]\n\"s\"\n");
}

#[test]
fn append_of_an_empty_body_writes_nothing() {
    let mut text: Vec<u8> = b"{}\n".to_vec();
    assert_eq!(append(&mut text, b""), Ok(()));
    assert_eq!(text, b"{}\n");
    assert_eq!(append(&mut text, b"  \n\t "), Ok(()));
    assert_eq!(text, b"{}\n");
}

#[test]
fn append_keeps_what_the_log_held() {
    let mut text: Vec<u8> = b"{\"old\":true}\n".to_vec();
    assert_eq!(append(&mut text, b"{\"new\":true}"), Ok(()));
    assert_eq!(text, b"{\"old\":true}\n{\"new\":true}\n");
}

#[test]
fn append_escapes_newlines_inside_strings() {
    let mut text: Vec<u8> = Vec::new();
    assert_eq!(append(&mut text, b"{\"a\":\"line one\\nline two\\r\"}"), Ok(()));
    assert_eq!(text, b"{\"a\":\"line one\\nline two\\r\"}\n");
    assert_eq!(count(&text), "1");
    assert_eq!(text.iter().filter(|b| **b == b'\n').count(), 1);
}

#[test]
fn append_then_count_grows_by_the_number_of_values() {
    let mut text: Vec<u8> = b"{}\n{}\n".to_vec();
    let before: usize = count(&text).parse().unwrap();
    assert_eq!(append(&mut text, b"1 2 3 {\"a\":[1,2]} \"five\""), Ok(()));
    let after: usize = count(&text).parse().unwrap();
    assert_eq!(after, before + 5);
}

#[test]
fn truncated_body_is_invalid_json_and_changes_nothing() {
    let mut text: Vec<u8> = b"{\"kept\":1}\n".to_vec();
    assert_eq!(append(&mut text, b"{\"a\":1"), Err(ResponseError::InvalidJson));
    assert_eq!(text, b"{\"kept\":1}\n");
    let mut empty: Vec<u8> = Vec::new();
    assert_eq!(append(&mut empty, b"{\"a\":1"), Err(ResponseError::InvalidJson));
    assert!(empty.is_empty());
}

#[test]
fn garbage_body_is_invalid_json() {
    let mut text: Vec<u8> = Vec::new();
    assert_eq!(append(&mut text, b"not json"), Err(ResponseError::InvalidJson));
    assert_eq!(append(&mut text, b"}"), Err(ResponseError::InvalidJson));
    assert_eq!(append(&mut text, b"{\"a\":}"), Err(ResponseError::InvalidJson));
    assert_eq!(append(&mut text, &[0xff, 0xfe]), Err(ResponseError::InvalidJson));
    assert!(text.is_empty());
}

#[test]
fn values_before_a_fault_stay_written() {
    let mut text: Vec<u8> = b"0\n".to_vec();
    assert_eq!(append(&mut text, b"{\"a\":1} {\"b\":2} {\"c\":"), Err(ResponseError::InvalidJson));
    assert_eq!(text, b"0\n{\"a\":1}\n{\"b\":2}\n");
}

#[test]
fn nothing_after_a_fault_is_written() {
    let mut text: Vec<u8> = Vec::new();
    assert_eq!(append(&mut text, b"1 ] 2 3"), Err(ResponseError::InvalidJson));
    assert_eq!(text, b"1\n");
}

#[test]
fn number_run_into_a_letter_is_a_fault() {
    let mut text: Vec<u8> = Vec::new();
    assert_eq!(append(&mut text, b"12x"), Err(ResponseError::InvalidJson));
    assert!(text.is_empty());
}

#[test]
fn append_values_writes_given_values() {
    let mut text: Vec<u8> = Vec::new();
    let items = vec![
        Ok(Value::from(1)),
        Ok(Value::from("two")),
        Ok(Value::Null),
        Ok(Value::from(vec![Value::from(true), Value::from(false)])),
    ];
    assert_eq!(append_values(&mut text, &items), Ok(()));
    assert_eq!(text, b"1\n\"two\"\nnull\n[true,false]\n");
}

#[test]
fn append_values_stops_at_the_first_error() {
    let fault = serde_json::from_str::<Value>("{").unwrap_err();
    let mut text: Vec<u8> = b"x\n".to_vec();
    let items = vec![Ok(Value::from(1)), Err(fault), Ok(Value::from(2))];
    assert_eq!(append_values(&mut text, &items), Err(ResponseError::InvalidJson));
    assert_eq!(text, b"x\n1\n");
}

#[test]
fn append_values_of_nothing_is_well() {
    let mut text: Vec<u8> = b"x\n".to_vec();
    let items: Vec<Result<Value, serde_json::Error>> = Vec::new();
    assert_eq!(append_values(&mut text, &items), Ok(()));
    assert_eq!(text, b"x\n");
}

#[test]
fn appends_in_turn_on_an_empty_log_leave_one_line_each() {
    let mut text: Vec<u8> = Vec::new();
    let mut n: u64 = 0;
    while n < 50 {
        let body = format!("{{\"n\": {}, \"s\": \"v{}\"}}", n, n);
        assert_eq!(append(&mut text, body.as_bytes()), Ok(()));
        n += 1;
    }
    assert_eq!(count(&text), "50");
    let whole = String::from_utf8(text).unwrap();
    let mut seen: u64 = 0;
    for line in whole.lines() {
        let value: Value = serde_json::from_str(line).unwrap();
        assert_eq!(value.get("n").and_then(Value::as_u64), Some(seen));
        seen += 1;
    }
    assert_eq!(seen, 50);
}

#[test]
fn reads_the_identifier_of_a_record() {
    assert_eq!(read_record_id(OLD.as_bytes()), Ok(1541815603606036480));
    assert_eq!(
        read_record_id(b"  { \"x\": [1], \"user\": { \"name\": \"n\", \"id_str\": \"+007\" } }\r"),
        Ok(7)
    );
    assert_eq!(
        read_record_id(b"{\"user\":{\"id_str\":\"18446744073709551615\"}}"),
        Ok(u64::MAX)
    );
}

#[test]
fn record_that_is_no_json_gives_the_parser_message() {
    let expected = serde_json::from_slice::<Value>(b"{\"user\":").unwrap_err().to_string();
    assert_eq!(read_record_id(b"{\"user\":"), Err(ResponseError::Internal(expected)));
    let empty = serde_json::from_slice::<Value>(b"").unwrap_err().to_string();
    assert_eq!(read_record_id(b""), Err(ResponseError::Internal(empty)));
    let two = serde_json::from_slice::<Value>(b"{} {}").unwrap_err().to_string();
    assert_eq!(read_record_id(b"{} {}"), Err(ResponseError::Internal(two)));
}

#[test]
fn record_without_user_is_unreadable() {
    let expected = Err(ResponseError::Internal("record has no member `user`".to_string()));
    assert_eq!(read_record_id(b"{}"), expected);
    assert_eq!(read_record_id(b"{\"id_str\":\"1\"}"), expected);
    assert_eq!(read_record_id(b"[{\"id_str\":\"1\"}]"), expected);
    assert_eq!(read_record_id(b"\"user\""), expected);
    assert_eq!(read_record_id(b"12"), expected);
}

#[test]
fn record_without_identifier_is_unreadable() {
    let expected = Err(ResponseError::Internal("record has no member `user.id_str`".to_string()));
    assert_eq!(read_record_id(b"{\"user\":{}}"), expected);
    assert_eq!(read_record_id(b"{\"user\":{\"id\":1}}"), expected);
    assert_eq!(read_record_id(b"{\"user\":null}"), expected);
    assert_eq!(read_record_id(b"{\"user\":\"id_str\"}"), expected);
    assert_eq!(read_record_id(b"{\"user\":[\"1\"]}"), expected);
}

#[test]
fn identifier_that_is_no_string_is_unreadable() {
    let expected = Err(ResponseError::Internal("member `user.id_str` is not a string".to_string()));
    assert_eq!(read_record_id(b"{\"user\":{\"id_str\":1541815603606036480}}"), expected);
    assert_eq!(read_record_id(b"{\"user\":{\"id_str\":null}}"), expected);
    assert_eq!(read_record_id(b"{\"user\":{\"id_str\":[\"1\"]}}"), expected);
}

#[test]
fn identifier_that_is_no_number_is_unreadable() {
    let expected = Err(ResponseError::Internal(
        "member `user.id_str` is not an unsigned 64-bit decimal number".to_string(),
    ));
    assert_eq!(read_record_id(b"{\"user\":{\"id_str\":\"\"}}"), expected);
    assert_eq!(read_record_id(b"{\"user\":{\"id_str\":\"abc\"}}"), expected);
    assert_eq!(read_record_id(b"{\"user\":{\"id_str\":\"-1\"}}"), expected);
    assert_eq!(read_record_id(b"{\"user\":{\"id_str\":\"1.5\"}}"), expected);
    assert_eq!(read_record_id(b"{\"user\":{\"id_str\":\" 1\"}}"), expected);
    assert_eq!(read_record_id(b"{\"user\":{\"id_str\":\"18446744073709551616\"}}"), expected);
}

#[test]
fn prune_removes_the_old_and_keeps_the_young() {
    let mut text = OLD.as_bytes().to_vec();
    text.push(b'\n');
    let day_later = text.clone();
    let mut kept = text.clone();
    assert_eq!(prune_at(&mut kept, CREATED + DAY), Ok(()));
    assert_eq!(kept, day_later);
    assert_eq!(prune_at(&mut text, CREATED + 26 * DAY), Ok(()));
    assert!(text.is_empty());
}

#[test]
fn prune_draws_the_line_at_the_window() {
    let now: u64 = 1_700_000_000;
    let at_window = record(id_created_at(now - 25 * DAY));
    let inside = record(id_created_at(now - 25 * DAY + 1));
    let outside = record(id_created_at(now - 25 * DAY - 1));
    let mut text = log_of(&[at_window, inside.clone(), outside]);
    assert_eq!(prune_at(&mut text, now), Ok(()));
    assert_eq!(text, log_of(&[inside]));
}

#[test]
fn prune_keeps_lines_in_their_order_and_with_their_text() {
    let now: u64 = 1_700_000_000;
    let young_a = format!("  {}  ", record(id_created_at(now - DAY)));
    let old_a = record(id_created_at(now - 30 * DAY));
    let young_b = record(id_created_at(now - 2 * DAY));
    let old_b = record(id_created_at(now - 400 * DAY));
    let young_c = record(id_created_at(now + DAY));
    let young_d = young_a.clone();
    let mut text = log_of(&[
        young_a.clone(),
        old_a,
        young_b.clone(),
        old_b,
        young_c.clone(),
        young_d.clone(),
    ]);
    assert_eq!(prune_at(&mut text, now), Ok(()));
    assert_eq!(text, log_of(&[young_a, young_b, young_c, young_d]));
}

#[test]
fn prune_twice_is_prune_once() {
    let now: u64 = 1_700_000_000;
    let mut text = log_of(&[
        record(id_created_at(now - 26 * DAY)),
        record(id_created_at(now - 24 * DAY)),
        record(id_created_at(now - 25 * DAY)),
        record(id_created_at(now)),
    ]);
    assert_eq!(prune_at(&mut text, now), Ok(()));
    let once = text.clone();
    assert_eq!(count(&once), "2");
    assert_eq!(prune_at(&mut text, now), Ok(()));
    assert_eq!(text, once);
}

#[test]
fn prune_of_an_empty_log_leaves_it_empty() {
    let mut text: Vec<u8> = Vec::new();
    assert_eq!(prune_at(&mut text, 0), Ok(()));
    assert!(text.is_empty());
}

#[test]
fn prune_terminates_an_open_last_line() {
    let mut text = OLD.as_bytes().to_vec();
    assert_eq!(prune_at(&mut text, CREATED), Ok(()));
    assert_eq!(text, format!("{}\n", OLD).as_bytes());
}

#[test]
fn prune_keeps_a_carriage_return_that_the_line_holds() {
    let mut text = format!("{}\r\n", OLD).into_bytes();
    assert_eq!(prune_at(&mut text, CREATED), Ok(()));
    assert_eq!(text, format!("{}\r\n", OLD).as_bytes());
}

#[test]
fn prune_fails_on_a_malformed_record_and_leaves_the_log() {
    let now: u64 = CREATED + 26 * DAY;
    let before = format!("{}\n{{\"user\":{{}}}}\n{}\n", OLD, OLD).into_bytes();
    let mut text = before.clone();
    let message = internal_text(prune_at(&mut text, now));
    assert_eq!(message, "record has no member `user.id_str`");
    assert_eq!(text, before);
}

#[test]
fn prune_reports_the_first_malformed_record() {
    let before = b"{\"user\":{\"id_str\":\"x\"}}\n{}\nnot json\n".to_vec();
    let mut text = before.clone();
    let message = internal_text(prune_at(&mut text, 0));
    assert_eq!(message, "member `user.id_str` is not an unsigned 64-bit decimal number");
    assert_eq!(text, before);
}

#[test]
fn prune_fails_on_an_empty_line() {
    let before = format!("{}\n\n{}\n", OLD, OLD).into_bytes();
    let mut text = before.clone();
    let expected = serde_json::from_slice::<Value>(b"").unwrap_err().to_string();
    assert_eq!(internal_text(prune_at(&mut text, CREATED)), expected);
    assert_eq!(text, before);
}

#[test]
fn prune_fails_on_a_malformed_record_even_when_it_is_old() {
    let before = format!("{}\n{{\"user\":1}}", OLD).into_bytes();
    let mut text = before.clone();
    assert!(prune_at(&mut text, u64::MAX).is_err());
    assert_eq!(text, before);
}

#[test]
fn prune_after_append_sees_the_new_records() {
    let now: u64 = 1_700_000_000;
    let mut text: Vec<u8> = Vec::new();
    let body = format!(
        "{} {}",
        record(id_created_at(now - 100 * DAY)),
        record(id_created_at(now - DAY))
    );
    assert_eq!(append(&mut text, body.as_bytes()), Ok(()));
    assert_eq!(count(&text), "2");
    assert_eq!(prune_at(&mut text, now), Ok(()));
    assert_eq!(count(&text), "1");
    let young: Value = serde_json::from_str(&record(id_created_at(now - DAY))).unwrap();
    assert_eq!(text, log_of(&[serde_json::to_string(&young).unwrap()]));
}

#[test]
fn prune_by_the_clock_drops_a_record_of_long_ago_and_keeps_one_of_the_far_future() {
    let future = record(u64::MAX);
    let mut text = log_of(&[OLD.to_string(), future.clone(), OLD.to_string()]);
    assert_eq!(prune(&mut text), Ok(()));
    assert_eq!(text, log_of(&[future]));
}

#[test]
fn prune_by_the_clock_leaves_the_log_when_a_record_is_malformed() {
    let before = b"{}\n".to_vec();
    let mut text = before.clone();
    assert_eq!(
        prune(&mut text),
        Err(ResponseError::Internal("record has no member `user`".to_string()))
    );
    assert_eq!(text, before);
}

#[test]
fn secret_travels_in_the_auth_header() {
    assert_eq!(AUTH_HEADER, "x-auth");
}

#[test]
fn clock_reads_the_present_time_in_seconds() {
    let earlier = std::time::UNIX_EPOCH.elapsed().unwrap().as_secs();
    let now = current_time_secs().unwrap();
    let later = std::time::UNIX_EPOCH.elapsed().unwrap().as_secs();
    assert!(earlier <= now && now <= later);
    assert!(now > 1_600_000_000);
}

#[test]
fn append_sorts_nothing_but_the_keys_of_an_object() {
    let mut text: Vec<u8> = Vec::new();
    assert_eq!(append(&mut text, b"[3, 1, 2] {\"b\": [2, 1], \"a\": 0}"), Ok(()));
    let whole = String::from_utf8(text).unwrap();
    let mut lines = whole.lines();
    assert_eq!(lines.next(), Some("[3,1,2]"));
    let second: Value = serde_json::from_str(lines.next().unwrap()).unwrap();
    assert_eq!(second.get("a"), Some(&Value::from(0)));
    assert_eq!(second.get("b"), Some(&Value::from(vec![Value::from(2), Value::from(1)])));
    assert_eq!(lines.next(), None);
}

#[test]
fn reading_of_the_clock_gives_its_whole_seconds() {
    assert_eq!(time_of_reading(Ok(std::time::Duration::new(1656432460, 999_999_999))), Ok(1656432460));
    assert_eq!(time_of_reading(Ok(std::time::Duration::new(0, 5))), Ok(0));
    assert_eq!(time_of_reading(Ok(std::time::Duration::from_millis(2_500))), Ok(2));
    assert_eq!(time_of_reading(Ok(std::time::Duration::MAX)), Ok(u64::MAX));
}

#[test]
fn reading_of_a_clock_before_the_epoch_is_an_internal_error() {
    let later = std::time::UNIX_EPOCH + std::time::Duration::from_secs(10);
    let fault = std::time::UNIX_EPOCH.duration_since(later).unwrap_err();
    let message = fault.to_string();
    assert!(!message.is_empty());
    assert_eq!(time_of_reading(Err(fault)), Err(ResponseError::Internal(message)));
}
