//! Import providers + the canonical, cross-source data model.
//!
//! The product goal is *many ways to add data × many ways to filter it*. A
//! provider turns its source (Sentinel files, the RadioReference web service, …)
//! into owned, source-agnostic records, so a filter or writer never cares where the
//! data came from. [`HpdbProvider`] is provider #1: it holds a parsed HPDB card
//! file. This module holds the source-agnostic channel model and the rule that
//! turns a typed card record into a channel.

use vstd::prelude::*;
use crate::format::{Document, SpecLine};
use crate::device::profile::SpecSchema;
use crate::model::{
    Record, col_field, freq_col, mode_col, nonempty_of, opt_str_view, rec_name, service_col,
    strip_tone, tgid_col, tone_col,
};
use crate::text::{copy_str, spec_parse_u16, spec_parse_u64, str_eq};

verus! {

/// Coarse system classification, source-agnostic.
#[derive(Debug, Clone, Copy, PartialEq, Eq, Structural)]
pub enum SystemKind {
    Conventional,
    Trunk,
    Other,
}

impl SystemKind {
    /// The kind a system header command names.
    pub open spec fn spec_from_command(c: Seq<char>) -> SystemKind {
        if c == "Conventional"@ {
            SystemKind::Conventional
        } else if c == "Trunk"@ {
            SystemKind::Trunk
        } else {
            SystemKind::Other
        }
    }

    pub fn from_command(command: &str) -> (r: Self)
        ensures
            r == SystemKind::spec_from_command(command@),
    {
        if str_eq(command, "Conventional") {
            SystemKind::Conventional
        } else if str_eq(command, "Trunk") {
            SystemKind::Trunk
        } else {
            SystemKind::Other
        }
    }
}

/// Whether a channel is a conventional frequency or a trunked talkgroup.
#[derive(Debug, Clone, Copy, PartialEq, Eq, Structural)]
pub enum ChannelKind {
    Frequency,
    Talkgroup,
}

/// One channel (a frequency or a talkgroup) with its filterable attributes.
#[derive(Debug, Clone, PartialEq)]
pub struct Channel {
    pub name: String,
    pub kind: ChannelKind,
    pub freq_hz: Option<u64>,
    pub tgid: Option<String>,
    pub mode: Option<String>,
    pub tone: Option<String>,
    /// RadioReference service-type code (see `model::service_type_name`).
    pub service_type: Option<u16>,
}

/// The content of a channel.
pub struct SpecChannel {
    pub name: Seq<char>,
    pub kind: ChannelKind,
    pub freq_hz: Option<u64>,
    pub tgid: Option<Seq<char>>,
    pub mode: Option<Seq<char>>,
    pub tone: Option<Seq<char>>,
    pub service_type: Option<u16>,
}

pub open spec fn opt_string_chars(o: Option<String>) -> Option<Seq<char>> {
    match o {
        Some(s) => Some(s@),
        None => None,
    }
}

impl View for Channel {
    type V = SpecChannel;

    open spec fn view(&self) -> SpecChannel {
        SpecChannel {
            name: self.name@,
            kind: self.kind,
            freq_hz: self.freq_hz,
            tgid: opt_string_chars(self.tgid),
            mode: opt_string_chars(self.mode),
            tone: opt_string_chars(self.tone),
            service_type: self.service_type,
        }
    }
}

/// The channel a typed record denotes: a record with a frequency or a talkgroup
/// (talkgroup when it has one), with its name (empty when absent) and attributes.
pub open spec fn channel_of(r: (SpecLine, SpecSchema)) -> Option<SpecChannel> {
    let freq = match col_field(r.0, freq_col(r.1)) {
        Some(f) => spec_parse_u64(f),
        None => None,
    };
    let tgid = nonempty_of(col_field(r.0, tgid_col(r.1)));
    if freq is Some || tgid is Some {
        Some(SpecChannel {
            name: match rec_name(r) {
                Some(n) => n,
                None => Seq::empty(),
            },
            kind: if tgid is Some { ChannelKind::Talkgroup } else { ChannelKind::Frequency },
            freq_hz: freq,
            tgid,
            mode: nonempty_of(col_field(r.0, mode_col(r.1))),
            tone: match col_field(r.0, tone_col(r.1)) {
                Some(v) => nonempty_of(Some(strip_tone(v))),
                None => None,
            },
            service_type: match col_field(r.0, service_col(r.1)) {
                Some(f) => spec_parse_u16(f),
                None => None,
            },
        })
    } else {
        None
    }
}

fn owned(o: Option<&str>) -> (r: Option<String>)
    ensures
        opt_string_chars(r) == opt_str_view(o),
{
    match o {
        Some(s) => Some(copy_str(s)),
        None => None,
    }
}

/// The channel a card record carries, if it has a frequency or a talkgroup.
pub fn channel_from_record(rec: &Record) -> (r: Option<Channel>)
    ensures
        match r {
            Some(c) => channel_of(rec@) == Some(c@),
            None => channel_of(rec@) is None,
        },
{
    let freq = rec.frequency_hz();
    let tgid = rec.talkgroup();
    if freq.is_some() || tgid.is_some() {
        let name = match rec.name() {
            Some(n) => copy_str(n),
            None => String::new(),
        };
        let kind = if tgid.is_some() { ChannelKind::Talkgroup } else { ChannelKind::Frequency };
        let c = Channel {
            name,
            kind,
            freq_hz: freq,
            tgid: owned(tgid),
            mode: owned(rec.mode()),
            tone: owned(rec.tone()),
            service_type: rec.service_type_code(),
        };
        Some(c)
    } else {
        None
    }
}

/// Provider #1: scanner HPDB card files (what Sentinel writes). Holds a parsed
/// [`Document`]; the caller does the I/O so the core stays I/O-light.
pub struct HpdbProvider {
    doc: Document,
    source: String,
}

impl HpdbProvider {
    pub fn from_document(doc: Document, source: &str) -> (r: Self)
        ensures
            r.spec_doc() == doc@,
            r.spec_source() == source@,
    {
        HpdbProvider { doc, source: copy_str(source) }
    }

    pub closed spec fn spec_doc(&self) -> Seq<SpecLine> {
        self.doc@
    }

    pub closed spec fn spec_source(&self) -> Seq<char> {
        self.source@
    }

    /// Human-readable source label.
    pub fn name(&self) -> (r: &str)
        ensures
            r@ == self.spec_source(),
    {
        self.source.as_str()
    }

    /// The parsed card file.
    pub fn document(&self) -> (r: &Document)
        ensures
            r@ == self.spec_doc(),
    {
        &self.doc
    }
}

} // verus!
