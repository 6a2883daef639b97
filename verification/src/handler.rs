//! The operations of the service: authorize a request, count the records,
//! append records, prune old records.
//!
//! Each operation works on the text of the log held in memory. The caller
//! reads that text from its store before an operation and writes it back
//! afterwards, and runs one operation at a time.

use crate::clock::{read_clock, seconds_of, time_error_message, time_error_text, whole_seconds};
use crate::decimal::{decimal_string, decimal_text, decimal_u64, parse_u64};
use crate::json::{
    error_text, json_compact, json_document, json_error_text, json_member, json_stream,
    json_string, member, parse_document, parse_stream, string_bytes, to_compact,
};
use crate::snowflake::{is_retained, retained};
use crate::text::{
    find_line_end, first_where, is_first_where, join, lemma_first_where_unique, lemma_lines_append,
    lemma_lines_step, lines, push_line, single_lines, terminated, count_lines,
};
use serde_json::{Error, Value};
use std::time::{Duration, SystemTimeError};
use vstd::prelude::*;
use vstd::slice::slice_subrange;

verus! {

/// Why a request was turned down.
#[derive(Debug, PartialEq, Eq)]
pub enum ResponseError {
    /// The request did not present the shared secret.
    Forbidden,
    /// The operation failed inside the service; the text is for its operator.
    Internal(String),
    /// The body of an append is not a run of JSON values.
    InvalidJson,
}

/// What a `ResponseError` says, with its diagnostic as plain text.
pub enum ErrorView {
    /// The request did not present the shared secret.
    Forbidden,
    /// The operation failed inside the service, with this diagnostic.
    Internal(Seq<char>),
    /// The body of an append is not a run of JSON values.
    InvalidJson,
}

impl View for ResponseError {
    type V = ErrorView;

    open spec fn view(&self) -> ErrorView {
        match self {
            ResponseError::Forbidden => ErrorView::Forbidden,
            ResponseError::Internal(text) => ErrorView::Internal(text@),
            ResponseError::InvalidJson => ErrorView::InvalidJson,
        }
    }
}

/// The view of how an operation ended.
pub open spec fn outcome(result: Result<(), ResponseError>) -> Result<(), ErrorView> {
    match result {
        Ok(()) => Ok(()),
        Err(e) => Err(e@),
    }
}

impl ErrorView {
    /// The HTTP status that reports the error.
    pub open spec fn status(self) -> u16 {
        match self {
            ErrorView::Forbidden => 403,
            ErrorView::Internal(_) => 500,
            ErrorView::InvalidJson => 400,
        }
    }

    /// The body of the reply that reports the error. The diagnostic of an
    /// internal error is not part of it.
    pub open spec fn reply(self) -> Seq<char> {
        match self {
            ErrorView::Forbidden => "forbidden"@,
            ErrorView::Internal(_) => "internal server error"@,
            ErrorView::InvalidJson => "invalid json"@,
        }
    }
}

impl ResponseError {
    /// The HTTP status that reports the error.
    pub fn status_code(&self) -> (code: u16)
        ensures
            code == self@.status(),
    {
        match self {
            ResponseError::Forbidden => 403,
            ResponseError::Internal(_) => 500,
            ResponseError::InvalidJson => 400,
        }
    }

    /// The body of the reply that reports the error.
    pub fn reply_body(&self) -> (body: &'static str)
        ensures
            body@ == self@.reply(),
    {
        match self {
            ResponseError::Forbidden => "forbidden",
            ResponseError::Internal(_) => "internal server error",
            ResponseError::InvalidJson => "invalid json",
        }
    }
}

/// The name of the header that carries the shared secret.
pub const AUTH_HEADER: &'static str = "x-auth";

/// Compares two runs of bytes.
fn same_bytes(a: &[u8], b: &[u8]) -> (same: bool)
    ensures
        same == (a@ == b@),
{
    if a.len() != b.len() {
        return false;
    }
    let mut i: usize = 0;
    while i < a.len()
        invariant
            a.len() == b.len(),
            i <= a.len(),
            a@.take(i as int) == b@.take(i as int),
        decreases a.len() - i,
    {
        if a[i] != b[i] {
            return false;
        }
        i += 1;
        assert(a@.take(i as int) =~= a@.take(i - 1).push(a@[i - 1]));
        assert(b@.take(i as int) =~= b@.take(i - 1).push(b@[i - 1]));
    }
    assert(a@.take(i as int) =~= a@);
    assert(b@.take(i as int) =~= b@);
    true
}

/// Admits a request that presents the secret `auth` as the value of its
/// authorization header, and turns down one that presents another value or
/// none.
pub fn verify_auth(auth: &[u8], presented: Option<&[u8]>) -> (result: Result<(), ResponseError>)
    ensures
        result is Ok <==> (presented matches Some(value) && value@ == auth@),
        result matches Err(e) ==> e@ == ErrorView::Forbidden,
{
    match presented {
        None => Err(ResponseError::Forbidden),
        Some(value) => {
            if same_bytes(value, auth) {
                Ok(())
            } else {
                Err(ResponseError::Forbidden)
            }
        },
    }
}

/// Reports the number of records in the log `text`, in decimal.
pub fn count(text: &[u8]) -> (reply: String)
    ensures
        reply@ == decimal_text(lines(text@).len()),
{
    decimal_string(count_lines(text))
}

/// What one item of an append contributes: the line that is written for it,
/// or the error that ends the append.
pub open spec fn item_line(item: Result<Value, Error>) -> Result<Seq<u8>, ErrorView> {
    match item {
        Err(_) => Err(ErrorView::InvalidJson),
        Ok(value) => match json_compact(value) {
            Ok(line) => Ok(line),
            Err(e) => Err(ErrorView::Internal(json_error_text(e))),
        },
    }
}

/// The test for an item that ends an append.
pub open spec fn rejected() -> spec_fn(Result<Value, Error>) -> bool {
    |item: Result<Value, Error>| item_line(item) is Err
}

/// The number of items at the start of `items` that an append writes: all
/// those before the first that is rejected.
pub open spec fn accepted(items: Seq<Result<Value, Error>>) -> nat {
    first_where(items, rejected())
}

/// The lines that an append of `items` writes, in order.
pub open spec fn written_lines(items: Seq<Result<Value, Error>>) -> Seq<Seq<u8>> {
    Seq::new(accepted(items), |i: int| item_line(items[i])->Ok_0)
}

/// How an append of `items` ends: well if every item was written, else with
/// the error of the first item that was rejected.
pub open spec fn append_outcome(items: Seq<Result<Value, Error>>) -> Result<(), ErrorView> {
    if accepted(items) >= items.len() {
        Ok(())
    } else {
        Err(item_line(items[accepted(items) as int])->Err_0)
    }
}

/// Appends to the log `text` one line for each item of `items`, in order,
/// up to the first item that is rejected: one that failed to parse, which
/// ends the append with `InvalidJson`, or one that cannot be printed.
/// Lines written before a rejected item stay in the log.
pub fn append_values(text: &mut Vec<u8>, items: &Vec<Result<Value, Error>>) -> (result: Result<
    (),
    ResponseError,
>)
    ensures
        final(text)@ == old(text)@ + join(written_lines(items@)),
        outcome(result) == append_outcome(items@),
        single_lines(written_lines(items@)),
        terminated(old(text)@) ==> terminated(final(text)@) && lines(final(text)@) == lines(
            old(text)@,
        ) + written_lines(items@),
{
    let ghost mut done: Seq<Seq<u8>> = Seq::empty();
    let mut failure: Option<ResponseError> = None;
    let mut i: usize = 0;
    while i < items.len() && failure.is_none()
        invariant
            i <= items.len(),
            done.len() == i,
            forall|k: int| 0 <= k < i ==> item_line(items@[k]) == Ok::<Seq<u8>, ErrorView>(#[trigger] done[k]),
            single_lines(done),
            text@ == old(text)@ + join(done),
            failure matches Some(e) ==> i < items.len() && item_line(items@[i as int]) == Err::<
                Seq<u8>,
                ErrorView,
            >(e@),
        decreases items.len() - i, failure.is_none() as int,
    {
        match &items[i] {
            Err(_) => {
                failure = Some(ResponseError::InvalidJson);
            },
            Ok(value) => match to_compact(value) {
                Err(e) => {
                    failure = Some(ResponseError::Internal(error_text(&e)));
                },
                Ok(line) => {
                    push_line(text, line.as_slice());
                    proof {
                        assert(done.push(line@).drop_last() =~= done);
                        done = done.push(line@);
                    }
                    i += 1;
                },
            },
        }
    }
    proof {
        assert(is_first_where(items@, rejected(), i as int)) by {
            assert forall|k: int| 0 <= k < i implies !rejected()(#[trigger] items@[k]) by {
                assert(item_line(items@[k]) == Ok::<Seq<u8>, ErrorView>(done[k]));
            }
        }
        lemma_first_where_unique(items@, rejected(), i as int);
        assert(done =~= written_lines(items@));
        if terminated(old(text)@) {
            lemma_lines_append(old(text)@, done);
            if join(done).len() > 0 {
                assert((old(text)@ + join(done)).last() == join(done).last());
            } else {
                assert(old(text)@ + join(done) =~= old(text)@);
            }
        }
    }
    match failure {
        Some(e) => Err(e),
        None => Ok(()),
    }
}

/// Appends to the log `text` the JSON values that `body` holds one after
/// another, each printed compactly on a line of its own. A body that is not
/// a run of JSON values ends the append with `InvalidJson`; the values that
/// precede the fault are written all the same.
pub fn append(text: &mut Vec<u8>, body: &[u8]) -> (result: Result<(), ResponseError>)
    ensures
        final(text)@ == old(text)@ + join(written_lines(json_stream(body@))),
        outcome(result) == append_outcome(json_stream(body@)),
        single_lines(written_lines(json_stream(body@))),
        terminated(old(text)@) ==> terminated(final(text)@) && lines(final(text)@) == lines(
            old(text)@,
        ) + written_lines(json_stream(body@)),
{
    let items = parse_stream(body);
    append_values(text, &items)
}

/// The diagnostic for a record without a member `user`.
pub open spec fn no_user() -> Seq<char> {
    "record has no member `user`"@
}

/// The diagnostic for a record whose `user` has no member `id_str`.
pub open spec fn no_id() -> Seq<char> {
    "record has no member `user.id_str`"@
}

/// The diagnostic for a record whose identifier is not a JSON string.
pub open spec fn id_not_text() -> Seq<char> {
    "member `user.id_str` is not a string"@
}

/// The diagnostic for a record whose identifier is not a number.
pub open spec fn id_not_number() -> Seq<char> {
    "member `user.id_str` is not an unsigned 64-bit decimal number"@
}

/// The identifier that the record on `line` carries: the string
/// `user.id_str` of the JSON object on that line, read as a decimal number.
/// A line that carries none gives the diagnostic that says why.
pub open spec fn record_id(line: Seq<u8>) -> Result<u64, Seq<char>> {
    match json_document(line) {
        Err(e) => Err(json_error_text(e)),
        Ok(record) => match json_member(record, "user"@) {
            None => Err(no_user()),
            Some(user) => match json_member(user, "id_str"@) {
                None => Err(no_id()),
                Some(id) => match json_string(id) {
                    None => Err(id_not_text()),
                    Some(digits) => match decimal_u64(digits) {
                        None => Err(id_not_number()),
                        Some(number) => Ok(number),
                    },
                },
            },
        },
    }
}

/// Reads the identifier of the record on `line`.
pub fn read_record_id(line: &[u8]) -> (result: Result<u64, ResponseError>)
    ensures
        match result {
            Ok(id) => record_id(line@) == Ok::<u64, Seq<char>>(id),
            Err(e) => record_id(line@) is Err && e@ == ErrorView::Internal(record_id(line@)->Err_0),
        },
{
    let record = match parse_document(line) {
        Ok(record) => record,
        Err(e) => {
            return Err(ResponseError::Internal(error_text(&e)));
        },
    };
    let user = match member(&record, "user") {
        Some(user) => user,
        None => {
            return Err(ResponseError::Internal("record has no member `user`".to_owned()));
        },
    };
    let id = match member(user, "id_str") {
        Some(id) => id,
        None => {
            return Err(ResponseError::Internal("record has no member `user.id_str`".to_owned()));
        },
    };
    let digits = match string_bytes(id) {
        Some(digits) => digits,
        None => {
            return Err(ResponseError::Internal("member `user.id_str` is not a string".to_owned()));
        },
    };
    match parse_u64(digits) {
        Some(number) => Ok(number),
        None => Err(
            ResponseError::Internal(
                "member `user.id_str` is not an unsigned 64-bit decimal number".to_owned(),
            ),
        ),
    }
}

/// The test for a line that carries no identifier.
pub open spec fn unreadable() -> spec_fn(Seq<u8>) -> bool {
    |line: Seq<u8>| record_id(line) is Err
}

/// The test for a line whose record is kept at the time `now`.
pub open spec fn keeps(now: u64) -> spec_fn(Seq<u8>) -> bool {
    |line: Seq<u8>| record_id(line) matches Ok(id) && retained(id, now)
}

/// The lines of `ls` that are kept at the time `now`, in their order.
pub open spec fn kept_lines(ls: Seq<Seq<u8>>, now: u64) -> Seq<Seq<u8>> {
    ls.filter(keeps(now))
}

/// The place in `ls` of the first line that carries no identifier, or the
/// length of `ls` if every line carries one.
pub open spec fn first_unreadable(ls: Seq<Seq<u8>>) -> nat {
    first_where(ls, unreadable())
}

/// What a prune at the time `now` makes of the log `text`: the kept lines,
/// each with its newline, or the diagnostic of the first line that carries
/// no identifier.
pub open spec fn pruned(text: Seq<u8>, now: u64) -> Result<Seq<u8>, ErrorView> {
    let ls = lines(text);
    let bad = first_unreadable(ls);
    if bad >= ls.len() {
        Ok(join(kept_lines(ls, now)))
    } else {
        Err(ErrorView::Internal(record_id(ls[bad as int])->Err_0))
    }
}

/// A prune at the time `now` turned the log `before` into `after` and ended
/// with `result`: it rewrote the log, or failed and left it as it was.
pub open spec fn prune_post(
    before: Seq<u8>,
    now: u64,
    after: Seq<u8>,
    result: Result<(), ErrorView>,
) -> bool {
    match pruned(before, now) {
        Ok(rewritten) => after == rewritten && result is Ok,
        Err(e) => after == before && result == Err::<(), ErrorView>(e),
    }
}

/// Removes from the log `text` the records that are no longer kept at the
/// time `now`, given in seconds since the Unix epoch. The lines that stay
/// keep their text and their order. If any line carries no identifier the
/// prune fails and the log stays as it was.
pub fn prune_at(text: &mut Vec<u8>, now: u64) -> (result: Result<(), ResponseError>)
    ensures
        prune_post(old(text)@, now, final(text)@, outcome(result)),
{
    let ghost all = lines(text@);
    let ghost mut done: Seq<Seq<u8>> = Seq::empty();
    let mut kept: Vec<u8> = Vec::new();
    let mut start: usize = 0;
    proof {
        assert(text@.skip(0) =~= text@);
        assert(done + lines(text@.skip(0)) =~= all);
        reveal(Seq::filter);
    }
    while start < text.len()
        invariant
            text@ == old(text)@,
            all == lines(text@),
            start <= text.len(),
            all == done + lines(text@.skip(start as int)),
            forall|k: int| 0 <= k < done.len() ==> !unreadable()(#[trigger] done[k]),
            kept@ == join(kept_lines(done, now)),
        decreases text.len() - start,
    {
        let end = find_line_end(text.as_slice(), start);
        let line = slice_subrange(text.as_slice(), start, end);
        proof {
            lemma_lines_step(text@, start as int, end as int);
            if end == text.len() {
                assert(text@.skip(start as int) =~= line@);
                assert(text@.skip(end as int) =~= Seq::<u8>::empty());
            }
            assert(all =~= done.push(line@) + lines(
                text@.skip(
                    if end < text.len() {
                        end + 1
                    } else {
                        end as int
                    },
                ),
            ));
        }
        match read_record_id(line) {
            Err(e) => {
                proof {
                    assert(is_first_where(all, unreadable(), done.len() as int)) by {
                        assert forall|k: int| 0 <= k < done.len() implies !unreadable()(
                            #[trigger] all[k],
                        ) by {
                            assert(all[k] == done[k]);
                        }
                        assert(all[done.len() as int] == line@);
                    }
                    lemma_first_where_unique(all, unreadable(), done.len() as int);
                }
                return Err(e);
            },
            Ok(id) => {
                proof {
                    done.lemma_filter_push(line@, keeps(now));
                }
                if is_retained(id, now) {
                    push_line(&mut kept, line);
                }
                proof {
                    assert(kept_lines(done, now).push(line@).drop_last() =~= kept_lines(done, now));
                    done = done.push(line@);
                }
            },
        }
        start = if end < text.len() {
            end + 1
        } else {
            end
        };
    }
    proof {
        assert(text@.skip(start as int) =~= Seq::<u8>::empty());
        assert(all =~= done);
        assert(is_first_where(all, unreadable(), all.len() as int));
        lemma_first_where_unique(all, unreadable(), all.len() as int);
    }
    *text = kept;
    Ok(())
}

/// What a reading of the clock tells: the whole seconds that have passed
/// since the Unix epoch, or the diagnostic of a clock that is set before
/// it.
pub open spec fn clock_time(reading: Result<Duration, SystemTimeError>) -> Result<u64, ErrorView> {
    match reading {
        Ok(elapsed) => Ok(whole_seconds(elapsed)),
        Err(e) => Err(ErrorView::Internal(time_error_text(e))),
    }
}

/// The view of a time or of the error in its place.
pub open spec fn time_view(now: Result<u64, ResponseError>) -> Result<u64, ErrorView> {
    match now {
        Ok(secs) => Ok(secs),
        Err(e) => Err(e@),
    }
}

/// Turns a reading of the clock into the time in whole seconds since the
/// Unix epoch. The reading of a clock that is set before the epoch gives an
/// internal error with the message of that reading.
pub fn time_of_reading(reading: Result<Duration, SystemTimeError>) -> (now: Result<
    u64,
    ResponseError,
>)
    ensures
        time_view(now) == clock_time(reading),
{
    match reading {
        Err(e) => Err(ResponseError::Internal(time_error_message(&e))),
        Ok(elapsed) => Ok(seconds_of(&elapsed)),
    }
}

/// Reads the present time off the system clock, in whole seconds since the
/// Unix epoch. A clock that is set before the epoch gives an internal
/// error. What comes back is what one reading of the clock tells.
pub fn current_time_secs() -> (now: Result<u64, ResponseError>)
    ensures
        exists|reading: Result<Duration, SystemTimeError>|
            time_view(now) == #[trigger] clock_time(reading),
        now matches Err(e) ==> e@ is Internal,
{
    let reading = read_clock();
    let now = time_of_reading(reading);
    assert(time_view(now) == clock_time(reading));
    now
}

/// Removes from the log `text` the records that are no longer kept at the
/// present time, which it reads from the system clock once, before it looks
/// at the log. If the clock cannot be read the prune fails and the log stays
/// as it was.
pub fn prune(text: &mut Vec<u8>) -> (result: Result<(), ResponseError>)
    ensures
        (exists|now: u64| prune_post(old(text)@, now, final(text)@, outcome(result)))
            || (final(text)@ == old(text)@ && outcome(result) matches Err(ErrorView::Internal(_))),
{
    match current_time_secs() {
        Err(e) => Err(e),
        Ok(now) => prune_at(text, now),
    }
}

} // verus!
