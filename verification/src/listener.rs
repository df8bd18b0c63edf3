//! Torrent IDs that arrive line by line.

use vstd::prelude::*;

use crate::text::{
    i64_of, i64_round_trip, is_digit, is_white_space, lemma_decimal_value, parse_i64,
    signed_decimal, trim, trim_end, trim_start, trimmed,
};
use crate::types::TorrentId;

verus! {

/// What happens to the listener.
#[derive(Debug)]
pub enum ListenerEvent {
    /// The program is told to stop.
    Cancelled,
    /// A line has been read.
    Line(String),
    /// There is nothing more to read.
    EndOfInput,
    /// A line could not be read.
    ReadFailed,
    /// Nobody takes IDs any more.
    ReceiverGone,
}

/// What the listener does.
#[derive(Debug)]
pub enum ListenerAction {
    /// Hand the ID on.
    Send(TorrentId),
    /// Go on with the next line.
    Skip,
    /// Say that the line, without the white space around it, is no ID, and go on.
    Warn(String),
    /// Stop.
    Stop,
    /// Say that the input ended, and stop.
    StopAtEnd,
    /// Fail.
    Fail,
}

/// What a line asks for, once the white space around it is gone.
pub open spec fn action_for(text: Seq<char>, action: ListenerAction) -> bool {
    if text.len() == 0 {
        action == ListenerAction::Skip
    } else {
        match i64_of(text) {
            Some(id) => action == ListenerAction::Send(TorrentId(id)),
            None => action matches ListenerAction::Warn(line) && line@ == text,
        }
    }
}

/// What a line asks for: an ID is handed on, an empty line is skipped, and any
/// other is ignored with a warning.
pub fn dispatch_line(line: &str) -> (r: ListenerAction)
    ensures
        action_for(trimmed(line@), r),
{
    let line = trim(line);
    if line.as_str().is_empty() {
        return ListenerAction::Skip;
    }
    match parse_i64(line.as_str()) {
        Some(id) => ListenerAction::Send(TorrentId(id)),
        None => ListenerAction::Warn(line),
    }
}

/// What the listener does next.
pub fn run(event: ListenerEvent) -> (r: ListenerAction)
    ensures
        match event {
            ListenerEvent::Cancelled => r == ListenerAction::Stop,
            ListenerEvent::EndOfInput => r == ListenerAction::StopAtEnd,
            ListenerEvent::ReadFailed | ListenerEvent::ReceiverGone => r == ListenerAction::Fail,
            ListenerEvent::Line(line) => action_for(trimmed(line@), r),
        },
{
    match event {
        ListenerEvent::Cancelled => ListenerAction::Stop,
        ListenerEvent::EndOfInput => ListenerAction::StopAtEnd,
        ListenerEvent::ReadFailed | ListenerEvent::ReceiverGone => ListenerAction::Fail,
        ListenerEvent::Line(line) => dispatch_line(line.as_str()),
    }
}

/// Whether a text is made of white space.
pub open spec fn is_blank(s: Seq<char>) -> bool {
    forall|i: int| 0 <= i < s.len() ==> is_white_space(#[trigger] s[i])
}

/// White space in front of a text is trimmed.
proof fn lemma_trim_start(blank: Seq<char>, s: Seq<char>)
    requires
        is_blank(blank),
    ensures
        trim_start(blank + s) == trim_start(s),
    decreases blank.len(),
{
    if blank.len() > 0 {
        assert((blank + s)[0] == blank[0]);
        assert((blank + s).drop_first() =~= blank.drop_first() + s);
        assert(is_blank(blank.drop_first())) by {
            assert forall|i: int| 0 <= i < blank.drop_first().len() implies is_white_space(
                #[trigger] blank.drop_first()[i],
            ) by {
                assert(blank.drop_first()[i] == blank[i + 1]);
            }
        }
        lemma_trim_start(blank.drop_first(), s);
    } else {
        assert(blank + s =~= s);
    }
}

/// White space behind a text is trimmed.
proof fn lemma_trim_end(s: Seq<char>, blank: Seq<char>)
    requires
        is_blank(blank),
    ensures
        trim_end(s + blank) == trim_end(s),
    decreases blank.len(),
{
    if blank.len() > 0 {
        assert((s + blank).last() == blank.last());
        assert((s + blank).drop_last() =~= s + blank.drop_last());
        assert(is_blank(blank.drop_last())) by {
            assert forall|i: int| 0 <= i < blank.drop_last().len() implies is_white_space(
                #[trigger] blank.drop_last()[i],
            ) by {
                assert(blank.drop_last()[i] == blank[i]);
            }
        }
        lemma_trim_end(s, blank.drop_last());
    } else {
        assert(s + blank =~= s);
    }
}

/// A line that holds an ID in decimal, whatever white space is around it, hands on
/// that ID.
pub proof fn id_line_is_sent(before: Seq<char>, id: i64, after: Seq<char>, action: ListenerAction)
    requires
        is_blank(before),
        is_blank(after),
        action_for(trimmed(before + signed_decimal(id as int) + after), action),
    ensures
        action == ListenerAction::Send(TorrentId(id)),
{
    let text = signed_decimal(id as int);
    i64_round_trip(id);
    if id < 0 {
        lemma_decimal_value((-id) as nat);
        let digits = crate::text::decimal((-id) as nat);
        assert(is_digit(digits.last()));
        assert(text.last() == digits.last());
        assert(text[0] == '-');
    } else {
        lemma_decimal_value(id as nat);
        assert(is_digit(text[0]));
        assert(is_digit(text.last()));
    }
    assert(before + text + after =~= before + (text + after));
    lemma_trim_start(before, text + after);
    assert((text + after)[0] == text[0]);
    lemma_trim_end(text, after);
}

/// A line of white space is skipped.
pub proof fn blank_line_is_skipped(line: Seq<char>, action: ListenerAction)
    requires
        is_blank(line),
        action_for(trimmed(line), action),
    ensures
        action == ListenerAction::Skip,
{
    assert(line + Seq::<char>::empty() =~= line);
    lemma_trim_start(line, Seq::<char>::empty());
}

/// A line that is neither blank nor an ID is ignored, with a warning that shows it without
/// the white space around it; a line that is an ID is sent, and nothing else is.
pub proof fn lines_ask_for_one_thing(line: Seq<char>, action: ListenerAction)
    requires
        action_for(trimmed(line), action),
    ensures
        trimmed(line).len() == 0 <==> action is Skip,
        action matches ListenerAction::Send(id) ==> i64_of(trimmed(line)) == Some(id.0),
        trimmed(line).len() > 0 && i64_of(trimmed(line)) is None ==> (
        action matches ListenerAction::Warn(text) && text@ == trimmed(line)),
        trimmed(line).len() > 0 ==> (i64_of(trimmed(line)) matches Some(id) ==> action
            == ListenerAction::Send(TorrentId(id))),
{
}

} // verus!
