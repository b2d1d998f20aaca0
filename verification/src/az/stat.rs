//! The statistics sidecar's buffer: which keys a decision touched and
//! how long it took.  Sending the flush message on a publish socket
//! happens outside the verified core; this module owns the buffer and
//! the exact wire text.

use vstd::prelude::*;
use crate::util::{join_strings, push_char, spec_decimal, spec_join, strs_view, u64_to_string};

verus! {

/// How much a context records per decision.
#[derive(Debug, Clone, Copy, PartialEq, Eq, Structural)]
pub enum StatMode {
    Full,
    Minimal,
    Off,
}

impl StatMode {
    /// Reads a mode name; anything unknown disables collection.
    pub fn from_name(name: &str) -> (r: StatMode)
        ensures
            name@ == "full"@ ==> r == StatMode::Full,
            name@ == "minimal"@ ==> r == StatMode::Minimal,
    {
        proof {
            reveal_strlit("full");
            reveal_strlit("minimal");
        }
        if crate::util::str_eq(name, "full") {
            proof {
                assert("full"@.len() == 4);
                assert("minimal"@.len() == 7);
            }
            StatMode::Full
        } else if crate::util::str_eq(name, "minimal") {
            StatMode::Minimal
        } else {
            StatMode::Off
        }
    }
}

/// The suffix-coded key of one storage read: `/C` for a cache hit,
/// `/cB` for a cache miss answered by the primary, `/B` for a
/// primary read without a cache.
pub open spec fn spec_stat_message(key: Seq<char>, use_cache: bool, from_cache: bool) -> Seq<
    char,
> {
    if use_cache && from_cache {
        key + seq!['/', 'C']
    } else if use_cache {
        key + seq!['/', 'c', 'B']
    } else {
        key + seq!['/', 'B']
    }
}

/// Formats the record of one storage read.
pub fn format_stat_message(key: &str, use_cache: bool, from_cache: bool) -> (r: String)
    ensures
        r@ == spec_stat_message(key@, use_cache, from_cache),
{
    let mut s = key.to_owned();
    if use_cache && from_cache {
        s.append("/C");
    } else if use_cache {
        s.append("/cB");
    } else {
        s.append("/B");
    }
    proof {
        reveal_strlit("/C");
        reveal_strlit("/cB");
        reveal_strlit("/B");
        assert(s@ =~= spec_stat_message(key@, use_cache, from_cache));
    }
    s
}

/// The flush message: sender id, duration in microseconds, and the
/// buffered messages joined by semicolons, the three separated by
/// commas.
pub open spec fn spec_flush_message(
    sender_id: Seq<char>,
    duration_micros: u64,
    messages: Seq<Seq<char>>,
) -> Seq<char> {
    sender_id + seq![','] + spec_decimal(duration_micros as int) + seq![','] + spec_join(
        messages,
        ';',
    )
}

/// The in-memory side of the statistics publisher.
pub struct StatCollector {
    pub sender_id: String,
    pub messages: Vec<String>,
    pub duration_micros: u64,
}

impl StatCollector {
    /// An empty collector under a sender id.
    pub fn new(sender_id: String) -> (r: StatCollector)
        ensures
            r.sender_id == sender_id,
            r.messages@ == Seq::<String>::empty(),
            r.duration_micros == 0u64,
    {
        StatCollector { sender_id, messages: Vec::new(), duration_micros: 0 }
    }

    /// Appends one message to the buffer.
    pub fn collect(&mut self, message: String)
        ensures
            final(self).messages@ == old(self).messages@.push(message),
            final(self).sender_id == old(self).sender_id,
            final(self).duration_micros == old(self).duration_micros,
    {
        self.messages.push(message);
    }

    /// Stores the elapsed time of the current decision.
    pub fn set_duration_micros(&mut self, duration: u64)
        ensures
            final(self).duration_micros == duration,
            final(self).messages@ == old(self).messages@,
            final(self).sender_id == old(self).sender_id,
    {
        self.duration_micros = duration;
    }

    /// The exact text one flush sends.
    pub fn build_flush_message(&self) -> (r: String)
        ensures
            r@ == spec_flush_message(
                self.sender_id@,
                self.duration_micros,
                strs_view(self.messages@),
            ),
    {
        let mut out = self.sender_id.clone();
        push_char(&mut out, ',');
        let dur = u64_to_string(self.duration_micros);
        out.append(dur.as_str());
        push_char(&mut out, ',');
        let joined = join_strings(&self.messages, ';');
        out.append(joined.as_str());
        proof {
            assert(self.messages.deep_view() =~~= strs_view(self.messages@));
            assert(out@ =~= spec_flush_message(
                self.sender_id@,
                self.duration_micros,
                strs_view(self.messages@),
            ));
        }
        out
    }

    /// Empties the buffer, as every flush does whether or not the
    /// send worked.
    pub fn clear(&mut self)
        ensures
            final(self).messages@ == Seq::<String>::empty(),
            final(self).sender_id == old(self).sender_id,
            final(self).duration_micros == old(self).duration_micros,
    {
        self.messages = Vec::new();
    }
}

} // verus!
