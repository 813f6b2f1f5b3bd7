//! RadioReference data, mapped onto the canonical model.
//!
//! The RadioReference web service (SOAP) is reached by platform glue; this module
//! holds the request/credential types and the pure mappings from RR's records and
//! taxonomy onto the canonical model.

use vstd::prelude::*;
use crate::provider::{Channel, ChannelKind, SpecChannel};
use crate::text::{
    concat_strs, copy_str, has_prefix, parse_u32, spec_parse_u32, starts_with, str_eq, strip_prefix_or_self, trim, trim_str,
};

verus! {

/// RR `tag` — one entry of the service-type taxonomy. `tag_id` is the **same**
/// numeric service-type code carried in the HPDB (see
/// [`service_rr_type`](crate::model::service_rr_type)); `tag_descr` is its
/// human label, which the card data omits.
#[derive(Debug, Clone, PartialEq, Eq)]
pub struct Tag {
    /// RR `tagId`
    pub tag_id: u16,
    /// RR `tagDescr`
    pub tag_descr: String,
}

/// RR `Talkgroup` (from `getTalkgroups`). Maps to an HPDB `TGID` channel.
#[derive(Debug, Clone, PartialEq)]
pub struct Talkgroup {
    /// RR `tgDec` — the decimal talkgroup id the radio displays.
    pub tg_dec: String,
    /// RR `tgAlpha` — short alpha tag (the channel name).
    pub tg_alpha: String,
    /// RR `tgDescr` — long description.
    pub tg_descr: String,
    /// RR `tgMode` — `A` analog, `D` digital (P25), `M` mixed, `T` TDMA, `E` encrypted.
    pub tg_mode: String,
    /// RR `tags` — service types on this talkgroup.
    pub tags: Vec<Tag>,
}

/// The raw technology name RR's type/flavor names map to.
pub open spec fn spec_tech(t: Seq<char>, flavor: Option<Seq<char>>) -> Seq<char> {
    if t == "Project 25"@ {
        if flavor == Some("Phase II"@) { "P25Phase2"@ } else { "P25Standard"@ }
    } else if t == "Motorola"@ {
        "Motorola"@
    } else if t == "DMR"@ || t == "Mototrbo"@ {
        "MotoTrbo"@
    } else if t == "NXDN"@ {
        "Nxdn"@
    } else if t == "LTR"@ || t == "LTR Standard"@ || t == "LTR Passport"@ {
        "Ltr"@
    } else if t == "EDACS"@ {
        "Edacs"@
    } else {
        t
    }
}

pub open spec fn opt_chars(o: Option<&str>) -> Option<Seq<char>> {
    match o {
        Some(s) => Some(s@),
        None => None,
    }
}

/// Map RR's `getTypes`/`getFlavors` names onto our raw tech vocabulary (the same
/// strings the HPDB header uses, e.g. `P25Standard`, `MotoTrbo`). Unknown type
/// names fall back to the name as-is so no information is lost.
pub fn tech_from_rr(rr_type: Option<&str>, flavor_name: Option<&str>) -> (r: Option<String>)
    ensures
        match rr_type {
            Some(t) => r matches Some(s) && s@ == spec_tech(t@, opt_chars(flavor_name)),
            None => r is None,
        },
{
    let t = match rr_type {
        Some(t) => t,
        None => {
            return None;
        },
    };
    let mapped: &str = if str_eq(t, "Project 25") {
        let phase2 = match flavor_name {
            Some(f) => str_eq(f, "Phase II"),
            None => false,
        };
        if phase2 { "P25Phase2" } else { "P25Standard" }
    } else if str_eq(t, "Motorola") {
        "Motorola"
    } else if str_eq(t, "DMR") || str_eq(t, "Mototrbo") {
        "MotoTrbo"
    } else if str_eq(t, "NXDN") {
        "Nxdn"
    } else if str_eq(t, "LTR") || str_eq(t, "LTR Standard") || str_eq(t, "LTR Passport") {
        "Ltr"
    } else if str_eq(t, "EDACS") {
        "Edacs"
    } else {
        t
    };
    Some(copy_str(mapped))
}

/// First service-type code on a list of tags (the channel's primary tag).
pub fn primary_service_type(tags: &[Tag]) -> (r: Option<u16>)
    ensures
        r == if tags@.len() > 0 { Some(tags@[0].tag_id) } else { None::<u16> },
{
    if tags.len() > 0 {
        Some(tags[0].tag_id)
    } else {
        None
    }
}

/// The channel an RR talkgroup becomes: named by its description (else its alpha
/// tag), keyed by its decimal id, with its mode when given and its primary tag.
pub open spec fn spec_talkgroup_channel(tg: Talkgroup) -> SpecChannel {
    SpecChannel {
        name: if tg.tg_descr@.len() > 0 { tg.tg_descr@ } else { tg.tg_alpha@ },
        kind: ChannelKind::Talkgroup,
        freq_hz: None,
        tgid: Some(tg.tg_dec@),
        mode: if tg.tg_mode@.len() > 0 { Some(tg.tg_mode@) } else { None },
        tone: None,
        service_type: if tg.tags@.len() > 0 { Some(tg.tags@[0].tag_id) } else { None },
    }
}

/// Map an RR talkgroup onto a canonical channel.
pub fn talkgroup_channel(tg: &Talkgroup) -> (r: Channel)
    ensures
        r@ == spec_talkgroup_channel(*tg),
{
    let name = if tg.tg_descr.unicode_len() > 0 {
        copy_str(tg.tg_descr.as_str())
    } else {
        copy_str(tg.tg_alpha.as_str())
    };
    let mode = if tg.tg_mode.unicode_len() > 0 { Some(copy_str(tg.tg_mode.as_str())) } else { None };
    Channel {
        name,
        kind: ChannelKind::Talkgroup,
        freq_hz: None,
        tgid: Some(copy_str(tg.tg_dec.as_str())),
        mode,
        tone: None,
        service_type: primary_service_type(tg.tags.as_slice()),
    }
}

/// The channel an RR conventional frequency maps to: named by its description
/// (else its alpha tag), with its mode and tone when non-empty and its primary
/// service type; `freq_hz` is its output frequency in Hz.
pub open spec fn spec_freq_channel(
    alpha: Seq<char>,
    descr: Seq<char>,
    mode: Seq<char>,
    tone: Seq<char>,
    tags: Seq<Tag>,
    freq_hz: Option<u64>,
) -> SpecChannel {
    SpecChannel {
        name: if descr.len() > 0 { descr } else { alpha },
        kind: ChannelKind::Frequency,
        freq_hz,
        tgid: None,
        mode: if mode.len() > 0 { Some(mode) } else { None },
        tone: if tone.len() > 0 { Some(tone) } else { None },
        service_type: if tags.len() > 0 { Some(tags[0].tag_id) } else { None },
    }
}

/// Map an RR conventional frequency (its text fields, tags and output frequency
/// in Hz) to a canonical channel.
pub fn freq_channel(alpha: &str, descr: &str, mode: &str, tone: &str, tags: &[Tag], freq_hz: Option<u64>) -> (r: Channel)
    ensures
        r@ == spec_freq_channel(alpha@, descr@, mode@, tone@, tags@, freq_hz),
{
    let name = if descr.unicode_len() > 0 { copy_str(descr) } else { copy_str(alpha) };
    let m = if mode.unicode_len() > 0 { Some(copy_str(mode)) } else { None };
    let t = if tone.unicode_len() > 0 { Some(copy_str(tone)) } else { None };
    Channel {
        name,
        kind: ChannelKind::Frequency,
        freq_hz,
        tgid: None,
        mode: m,
        tone: t,
        service_type: primary_service_type(tags),
    }
}

/// Per-user RadioReference auth — the WSDL `authInfo`. The **app key** is ours (one
/// per app, issued by RR support); **username/password** are the end user's, and
/// their account must be a paid **Premium** subscriber.
#[derive(Debug, Clone)]
pub struct Credentials {
    /// `appKey`
    pub app_key: String,
    /// `username`
    pub username: String,
    /// `password`
    pub password: String,
}

/// What to fetch from RR. The location-first entry points (`getZipcodeInfo` →
/// `getCountyInfo`/`getCountyFreqs` → `getTrsDetails`) map onto these.
#[derive(Debug, Clone)]
pub enum Query {
    /// Everything in a county (the common location-first request).
    County(u64),
    /// A specific trunked system by RR system id.
    TrunkedSystem(u64),
    /// A zip code — resolves to a county first (`getZipcodeInfo`).
    Zipcode(String),
}

/// The ZIP code a location selector names: `"zip:<zipcode>"`, the code with
/// surrounding whitespace trimmed and read as `str::parse::<u32>` reads it. Any
/// other selector is unsupported.
pub open spec fn spec_zip_selector(sel: Seq<char>) -> Result<u32, Seq<char>> {
    if !starts_with(sel, "zip:"@) {
        Err("unsupported selector: "@ + sel)
    } else {
        match spec_parse_u32(trim(sel.skip(4))) {
            Some(z) => Ok(z),
            None => Err("invalid ZIP"@),
        }
    }
}

/// Read the ZIP code out of a location selector (`"zip:<zipcode>"`; `county:` and
/// the like may join later). The error is the message a caller reports.
pub fn zip_selector(selector: &str) -> (r: Result<u32, String>)
    ensures
        match r {
            Ok(z) => spec_zip_selector(selector@) == Ok::<u32, Seq<char>>(z),
            Err(e) => spec_zip_selector(selector@) == Err::<u32, Seq<char>>(e@),
        },
{
    proof { reveal_strlit("zip:"); }
    if !has_prefix(selector, "zip:") {
        return Err(concat_strs("unsupported selector: ", selector));
    }
    let code = trim_str(strip_prefix_or_self(selector, "zip:"));
    match parse_u32(code) {
        Some(z) => Ok(z),
        None => Err(copy_str("invalid ZIP")),
    }
}

} // verus!
