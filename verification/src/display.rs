//! SDS150 **display customization** — the third card file class (after the HPDB
//! browse database and the favorites lists). The scanner's on-screen theme lives in
//! `profile.cfg` (named by [`crate::device::profile::SdLayout::profile_cfg`]): which
//! data items show in each screen area, and the per-element text/background colors.
//!
//! `profile.cfg` is a rich, multi-record settings file. We touch **only** the four
//! display records — `DisplayOption`, `Backlight`, `DispOptItems`, `DispColors` — and
//! carry every other record, and every field we don't own, **verbatim**. Combined with
//! the byte-exact round trip this is the "never overwrite what we don't know" rule.
//!
//! Records (tab-separated):
//! - `DisplayOption` — positional globals; only a few columns carry values.
//! - `Backlight` — positional globals.
//! - `DispOptItems  DispOptId=N  DispLayoutId=M  tok1 … tokK` — the ordered item
//!   tokens per area.
//! - `DispColors  DispColorId=N  ColorLayoutId=M  text1 back1 …` — the ordered
//!   text/back color pairs per element group.

use vstd::prelude::*;
use crate::error::{Error, Result};
use crate::favorites::set_field;
use crate::format::{
    Document, Line, SpecLine, all_file_bytes, doc_bytes, first_bad_byte, parse_lines,
    spec_command, spec_field, strings_view, lemma_document_round_trip,
};
use crate::device::profile::strs_view;
use crate::model::{keyed_id, keyed_of};
use crate::text::{copy_str, str_eq};

verus! {

/// A global display setting bound to a fixed column of a `DisplayOption`/`Backlight`
/// record. Only columns whose meaning is confirmed appear here; every other column is
/// preserved verbatim.
pub struct GlobalSpec {
    pub command: &'static str,
    pub key: &'static str,
    pub label: &'static str,
    pub col: usize,
    pub options: &'static [&'static str],
}

impl View for GlobalSpec {
    type V = (Seq<char>, Seq<char>, Seq<char>, usize, Seq<Seq<char>>);

    open spec fn view(&self) -> (Seq<char>, Seq<char>, Seq<char>, usize, Seq<Seq<char>>) {
        (self.command@, self.key@, self.label@, self.col, strs_view(self.options@))
    }
}

/// The editable global display settings: `(command, key, label, column, options)`.
/// All but one column are pinned by their value domain on a real card (col 12 `AFS`
/// is the EDACS format, col 6 `DEC` the Motorola format, col 13 `COLOR` the color
/// mode; Backlight col 10 the squelch light, col 11 the key light). DisplayOption
/// col 11 ("Simple mode") is an inference: a write only ever changes that one
/// column, so a mislabel is non-destructive.
pub open spec fn global_table() -> Seq<(Seq<char>, Seq<char>, Seq<char>, usize, Seq<Seq<char>>)> {
    seq![
        ("DisplayOption"@, "MotTgidFormat"@, "Motorola TGID format"@, 6usize, seq!["DEC"@, "HEX"@]),
        ("DisplayOption"@, "SimpleMode"@, "Simple mode"@, 11usize, seq!["Off"@, "On"@]),
        ("DisplayOption"@, "EdacTgidFormat"@, "EDACS TGID format"@, 12usize, seq!["AFS"@, "DEC"@]),
        ("DisplayOption"@, "ColorMode"@, "Color mode"@, 13usize, seq!["COLOR"@, "BLACK"@, "WHITE"@]),
        ("Backlight"@, "SqLight"@, "Squelch light"@, 10usize, seq!["Off"@, "5"@, "10"@, "15"@, "OpenSquelch"@]),
        ("Backlight"@, "KeyLight"@, "Key light"@, 11usize, seq!["15"@, "30"@, "60"@, "120"@, "Infinite"@]),
    ]
}

/// The views of a list of global specs.
pub open spec fn global_specs_view(s: Seq<GlobalSpec>) -> Seq<(Seq<char>, Seq<char>, Seq<char>, usize, Seq<Seq<char>>)> {
    Seq::new(s.len(), |i: int| s[i]@)
}

/// The editable global display settings.
pub fn global_specs() -> (r: &'static [GlobalSpec])
    ensures
        global_specs_view(r@) == global_table(),
{
    let r: &'static [GlobalSpec] = &[
        GlobalSpec { command: "DisplayOption", key: "MotTgidFormat", label: "Motorola TGID format", col: 6, options: &["DEC", "HEX"] },
        GlobalSpec { command: "DisplayOption", key: "SimpleMode", label: "Simple mode", col: 11, options: &["Off", "On"] },
        GlobalSpec { command: "DisplayOption", key: "EdacTgidFormat", label: "EDACS TGID format", col: 12, options: &["AFS", "DEC"] },
        GlobalSpec { command: "DisplayOption", key: "ColorMode", label: "Color mode", col: 13, options: &["COLOR", "BLACK", "WHITE"] },
        GlobalSpec { command: "Backlight", key: "SqLight", label: "Squelch light", col: 10, options: &["Off", "5", "10", "15", "OpenSquelch"] },
        GlobalSpec { command: "Backlight", key: "KeyLight", label: "Key light", col: 11, options: &["15", "30", "60", "120", "Infinite"] },
    ];
    assert(strs_view(r@[0].options@) =~= seq!["DEC"@, "HEX"@]);
    assert(strs_view(r@[1].options@) =~= seq!["Off"@, "On"@]);
    assert(strs_view(r@[2].options@) =~= seq!["AFS"@, "DEC"@]);
    assert(strs_view(r@[3].options@) =~= seq!["COLOR"@, "BLACK"@, "WHITE"@]);
    assert(strs_view(r@[4].options@) =~= seq!["Off"@, "5"@, "10"@, "15"@, "OpenSquelch"@]);
    assert(strs_view(r@[5].options@) =~= seq!["15"@, "30"@, "60"@, "120"@, "Infinite"@]);
    assert(global_specs_view(r@) =~= global_table());
    r
}

/// A display layout mode. The two ids differ between the item and color records.
#[derive(Debug, Clone, Copy, PartialEq, Eq)]
pub struct LayoutMode {
    pub name: &'static str,
    pub disp_layout_id: u64,
    pub color_layout_id: u64,
}

/// The seven display modes: `(name, DispLayoutId, ColorLayoutId)`.
pub open spec fn mode_table() -> Seq<(Seq<char>, u64, u64)> {
    seq![
        ("Simple Conventional"@, 1u64, 1u64),
        ("Simple Trunk"@, 2u64, 6u64),
        ("Detail Conventional"@, 3u64, 2u64),
        ("Detail Trunk"@, 4u64, 7u64),
        ("Search / Close Call"@, 5u64, 3u64),
        ("Weather"@, 6u64, 4u64),
        ("Tone Out"@, 7u64, 5u64),
    ]
}

/// The seven display modes (`DispLayoutId` / `ColorLayoutId`).
pub fn layout_modes() -> (r: &'static [LayoutMode])
    ensures
        Seq::new(r@.len(), |i: int| (r@[i].name@, r@[i].disp_layout_id, r@[i].color_layout_id)) == mode_table(),
{
    let r: &'static [LayoutMode] = &[
        LayoutMode { name: "Simple Conventional", disp_layout_id: 1, color_layout_id: 1 },
        LayoutMode { name: "Simple Trunk", disp_layout_id: 2, color_layout_id: 6 },
        LayoutMode { name: "Detail Conventional", disp_layout_id: 3, color_layout_id: 2 },
        LayoutMode { name: "Detail Trunk", disp_layout_id: 4, color_layout_id: 7 },
        LayoutMode { name: "Search / Close Call", disp_layout_id: 5, color_layout_id: 3 },
        LayoutMode { name: "Weather", disp_layout_id: 6, color_layout_id: 4 },
        LayoutMode { name: "Tone Out", disp_layout_id: 7, color_layout_id: 5 },
    ];
    assert(Seq::new(r@.len(), |i: int| (r@[i].name@, r@[i].disp_layout_id, r@[i].color_layout_id)) =~= mode_table());
    r
}

/// The allowed item (`DispOptItems`) tokens for one screen area (`DispOptId`).
pub struct ItemArea {
    pub disp_opt_id: u64,
    pub label: &'static str,
    pub tokens: &'static [&'static str],
}

/// The item vocabulary of the small areas (3 and 4).
pub open spec fn small_area_tokens() -> Seq<Seq<char>> {
    seq!["Empty"@, "ATT"@, "SCR"@, "CC"@, "Day"@, "P25Status"@, "GPS"@, "IFX"@, "Modulation"@, "P_Ch"@, "PRI"@, "REC"@, "REP"@, "Squelch"@, "TdmaSlot"@, "Time"@, "Volume"@, "LVL"@, "WxPRI"@, "Bluetooth"@]
}

/// Item vocabularies by option area: `(DispOptId, label, tokens)`. Areas 1-3 from
/// the file specification; area 4 shares the small-area vocabulary (real cards carry
/// data items there).
pub open spec fn area_table() -> Seq<(u64, Seq<char>, Seq<Seq<char>>)> {
    seq![
        (1u64, "Huge"@, seq!["Empty"@, "CTCSS/DCS"@, "FL_Name"@, "Frequency"@, "NumberTag"@, "SysSubID"@, "ServiceType"@, "SiteId"@, "SiteName"@, "SystemType"@, "SystemId"@, "TGID"@, "UnitId"@, "UnitIdName"@, "Volume&Squelch"@, "WACN"@]),
        (2u64, "Large"@, seq!["Empty"@, "BattVoltage"@, "CTCSS/DCS"@, "D_ErrorCount"@, "Filter"@, "FL_Name"@, "Frequency"@, "latitude"@, "Lcn"@, "longitude"@, "Noise"@, "NumberTag"@, "SysSubID"@, "Rssi"@, "Rssi Bar"@, "ServiceType"@, "SiteId"@, "SiteName"@, "SystemType"@, "SystemId"@, "TdmaSlot"@, "TGID"@, "UnitId"@, "UnitIdName"@, "USB1_vbus"@, "USB2_vbus"@, "Volume&Squelch"@, "WACN"@, "Bluetooth"@, "Battery Current"@, "Battery Temperature"@]),
        (3u64, "Small"@, small_area_tokens()),
        (4u64, "Small (lower)"@, small_area_tokens()),
    ]
}

/// Item vocabularies by option area.
pub fn item_areas() -> (r: &'static [ItemArea])
    ensures
        Seq::new(r@.len(), |i: int| (r@[i].disp_opt_id, r@[i].label@, strs_view(r@[i].tokens@))) == area_table(),
{
    let r: &'static [ItemArea] = &[
        ItemArea { disp_opt_id: 1, label: "Huge", tokens: &["Empty", "CTCSS/DCS", "FL_Name", "Frequency", "NumberTag", "SysSubID", "ServiceType", "SiteId", "SiteName", "SystemType", "SystemId", "TGID", "UnitId", "UnitIdName", "Volume&Squelch", "WACN"] },
        ItemArea { disp_opt_id: 2, label: "Large", tokens: &["Empty", "BattVoltage", "CTCSS/DCS", "D_ErrorCount", "Filter", "FL_Name", "Frequency", "latitude", "Lcn", "longitude", "Noise", "NumberTag", "SysSubID", "Rssi", "Rssi Bar", "ServiceType", "SiteId", "SiteName", "SystemType", "SystemId", "TdmaSlot", "TGID", "UnitId", "UnitIdName", "USB1_vbus", "USB2_vbus", "Volume&Squelch", "WACN", "Bluetooth", "Battery Current", "Battery Temperature"] },
        ItemArea { disp_opt_id: 3, label: "Small", tokens: &["Empty", "ATT", "SCR", "CC", "Day", "P25Status", "GPS", "IFX", "Modulation", "P_Ch", "PRI", "REC", "REP", "Squelch", "TdmaSlot", "Time", "Volume", "LVL", "WxPRI", "Bluetooth"] },
        ItemArea { disp_opt_id: 4, label: "Small (lower)", tokens: &["Empty", "ATT", "SCR", "CC", "Day", "P25Status", "GPS", "IFX", "Modulation", "P_Ch", "PRI", "REC", "REP", "Squelch", "TdmaSlot", "Time", "Volume", "LVL", "WxPRI", "Bluetooth"] },
    ];
    assert(strs_view(r@[0].tokens@) =~= seq!["Empty"@, "CTCSS/DCS"@, "FL_Name"@, "Frequency"@, "NumberTag"@, "SysSubID"@, "ServiceType"@, "SiteId"@, "SiteName"@, "SystemType"@, "SystemId"@, "TGID"@, "UnitId"@, "UnitIdName"@, "Volume&Squelch"@, "WACN"@]);
    assert(strs_view(r@[1].tokens@) =~= seq!["Empty"@, "BattVoltage"@, "CTCSS/DCS"@, "D_ErrorCount"@, "Filter"@, "FL_Name"@, "Frequency"@, "latitude"@, "Lcn"@, "longitude"@, "Noise"@, "NumberTag"@, "SysSubID"@, "Rssi"@, "Rssi Bar"@, "ServiceType"@, "SiteId"@, "SiteName"@, "SystemType"@, "SystemId"@, "TdmaSlot"@, "TGID"@, "UnitId"@, "UnitIdName"@, "USB1_vbus"@, "USB2_vbus"@, "Volume&Squelch"@, "WACN"@, "Bluetooth"@, "Battery Current"@, "Battery Temperature"@]);
    assert(strs_view(r@[2].tokens@) =~= small_area_tokens());
    assert(strs_view(r@[3].tokens@) =~= small_area_tokens());
    assert(Seq::new(r@.len(), |i: int| (r@[i].disp_opt_id, r@[i].label@, strs_view(r@[i].tokens@))) =~= area_table());
    r
}

/// The element groups a `DispColors` row paints (`DispColorId`). The element list is
/// nominal; the actual pair count per row varies by layout mode.
pub struct ColorGroupInfo {
    pub disp_color_id: u64,
    pub elements: &'static [&'static str],
}

/// Nominal element names per color group: `(DispColorId, elements)`.
pub open spec fn color_group_table() -> Seq<(u64, Seq<Seq<char>>)> {
    seq![
        (1u64, seq!["System Name"@, "System Avoid"@, "Dept Name"@, "Dept Avoid"@, "Channel Name"@, "Channel Avoid"@]),
        (2u64, seq!["System Option"@, "Dept Option"@, "Channel Option"@]),
        (3u64, seq!["Option_1"@, "Option_2"@, "Option_3"@, "Option_4"@, "Option_5"@]),
        (4u64, seq!["Option A_1"@, "Option_B_1"@]),
        (5u64, seq!["ICON1"@, "ICON2"@, "ICON3"@, "ICON4"@, "ICON5"@]),
        (6u64, seq!["F"@, "SIG"@, "BAT"@, "SP0"@, "KEY"@]),
        (7u64, seq!["Soft Key 1"@, "SP1"@, "Soft Key 2"@, "SP2"@, "Soft Key 3"@]),
    ]
}

/// Nominal element names per color group.
pub fn color_groups() -> (r: &'static [ColorGroupInfo])
    ensures
        Seq::new(r@.len(), |i: int| (r@[i].disp_color_id, strs_view(r@[i].elements@))) == color_group_table(),
{
    let r: &'static [ColorGroupInfo] = &[
        ColorGroupInfo { disp_color_id: 1, elements: &["System Name", "System Avoid", "Dept Name", "Dept Avoid", "Channel Name", "Channel Avoid"] },
        ColorGroupInfo { disp_color_id: 2, elements: &["System Option", "Dept Option", "Channel Option"] },
        ColorGroupInfo { disp_color_id: 3, elements: &["Option_1", "Option_2", "Option_3", "Option_4", "Option_5"] },
        ColorGroupInfo { disp_color_id: 4, elements: &["Option A_1", "Option_B_1"] },
        ColorGroupInfo { disp_color_id: 5, elements: &["ICON1", "ICON2", "ICON3", "ICON4", "ICON5"] },
        ColorGroupInfo { disp_color_id: 6, elements: &["F", "SIG", "BAT", "SP0", "KEY"] },
        ColorGroupInfo { disp_color_id: 7, elements: &["Soft Key 1", "SP1", "Soft Key 2", "SP2", "Soft Key 3"] },
    ];
    assert(strs_view(r@[0].elements@) =~= seq!["System Name"@, "System Avoid"@, "Dept Name"@, "Dept Avoid"@, "Channel Name"@, "Channel Avoid"@]);
    assert(strs_view(r@[1].elements@) =~= seq!["System Option"@, "Dept Option"@, "Channel Option"@]);
    assert(strs_view(r@[2].elements@) =~= seq!["Option_1"@, "Option_2"@, "Option_3"@, "Option_4"@, "Option_5"@]);
    assert(strs_view(r@[3].elements@) =~= seq!["Option A_1"@, "Option_B_1"@]);
    assert(strs_view(r@[4].elements@) =~= seq!["ICON1"@, "ICON2"@, "ICON3"@, "ICON4"@, "ICON5"@]);
    assert(strs_view(r@[5].elements@) =~= seq!["F"@, "SIG"@, "BAT"@, "SP0"@, "KEY"@]);
    assert(strs_view(r@[6].elements@) =~= seq!["Soft Key 1"@, "SP1"@, "Soft Key 2"@, "SP2"@, "Soft Key 3"@]);
    assert(Seq::new(r@.len(), |i: int| (r@[i].disp_color_id, strs_view(r@[i].elements@))) =~= color_group_table());
    r
}

/// The allowed color palette: X11-style names with Uniden's own hex values (a
/// `DispColors` field is one 6-hex value). 147 colors, from the file
/// specification's `Color, Item code` sheet.
pub open spec fn palette_table() -> Seq<(Seq<char>, Seq<char>)> {
    seq![
        ("Aliceblue"@, "eff7ff"@),
        ("Antiquewhite"@, "f7ebd6"@),
        ("Aqua"@, "00fbf7"@),
        ("Aquamarine"@, "7bffce"@),
        ("Azure"@, "efffff"@),
        ("Beige"@, "eff3d6"@),
        ("Bisque"@, "ffe3bd"@),
        ("Black"@, "000000"@),
        ("Blanchedalmond"@, "ffebc6"@),
        ("Blue"@, "0000ff"@),
        ("Blueviolet"@, "8429de"@),
        ("Brass"@, "b5a542"@),
        ("Brown"@, "a52929"@),
        ("Burlywood"@, "d6b584"@),
        ("Cadetblue"@, "5a9c9c"@),
        ("Chartreuse"@, "7bff00"@),
        ("Chocolate"@, "ce6718"@),
        ("Coolcopper"@, "d68418"@),
        ("Copper"@, "bd00de"@),
        ("Coral"@, "ff7f4a"@),
        ("Cornflower"@, "bdefde"@),
        ("Cornflowerblue"@, "6390e7"@),
        ("Cornsilk"@, "fff7d6"@),
        ("Crimson"@, "d61039"@),
        ("Cyan"@, "00ffff"@),
        ("Darkblue"@, "000084"@),
        ("Darkbrown"@, "d60800"@),
        ("Darkcyan"@, "008884"@),
        ("Darkgoldenrod"@, "b58408"@),
        ("Darkgray"@, "a5a5a5"@),
        ("Darkgreen"@, "006300"@),
        ("Darkkhaki"@, "b5b56b"@),
        ("Darkmagenta"@, "840084"@),
        ("Darkolivegreen"@, "526b29"@),
        ("Darkorange"@, "ff8800"@),
        ("Darkorchid"@, "9431c6"@),
        ("Darkred"@, "840000"@),
        ("Darksalmon"@, "e79473"@),
        ("Darkseagreen"@, "8cb98c"@),
        ("Darkslateblue"@, "423d84"@),
        ("Darkslategray"@, "294e4a"@),
        ("Darkturquoise"@, "00cace"@),
        ("Darkviolet"@, "8c00ce"@),
        ("Deeppink"@, "ff108c"@),
        ("Deepskyblue"@, "00bdff"@),
        ("Dimgray"@, "636763"@),
        ("Dodgerblue"@, "188cff"@),
        ("Feldspar"@, "f7cede"@),
        ("Firebrick"@, "ad2121"@),
        ("Floralwhite"@, "fff7ef"@),
        ("Forestgreen"@, "218821"@),
        ("Fuchsia"@, "f700f7"@),
        ("Gainsboro"@, "d6dad6"@),
        ("Ghostwhite"@, "f7f7ff"@),
        ("Gold"@, "ffd600"@),
        ("Goldenrod"@, "d6a118"@),
        ("Gray"@, "7b7f7b"@),
        ("Green"@, "007f00"@),
        ("Greenyellow"@, "adff29"@),
        ("Honeydew"@, "efffef"@),
        ("Hotpink"@, "ff67ad"@),
        ("Indianred"@, "c65a5a"@),
        ("Indigo"@, "4a007b"@),
        ("Ivory"@, "ffffef"@),
        ("Khaki"@, "efe38c"@),
        ("Lavender"@, "dee3f7"@),
        ("Lavenderblush"@, "ffefef"@),
        ("Lawngreen"@, "7bfb00"@),
        ("Lemonchiffon"@, "fff7c6"@),
        ("Lightblue"@, "add6de"@),
        ("Lightcoral"@, "ef7f7b"@),
        ("Lightcyan"@, "deffff"@),
        ("Lightgoldenrodyellow"@, "f7f7ce"@),
        ("Lightgreen"@, "8ceb8c"@),
        ("Lightgray"@, "ced2ce"@),
        ("Lightpink"@, "ffb1bd"@),
        ("Lightsalmon"@, "ff9c73"@),
        ("Lightseagreen"@, "18ada5"@),
        ("Lightskyblue"@, "84caf7"@),
        ("Lightslategray"@, "738494"@),
        ("Lightsteelblue"@, "adc2d6"@),
        ("Lightyellow"@, "ffffde"@),
        ("Lime"@, "00ff00"@),
        ("Limegreen"@, "31ca31"@),
        ("Linen"@, "f7efde"@),
        ("Magenta"@, "ff00ff"@),
        ("Maroon"@, "7b0000"@),
        ("Mediumaquamarine"@, "63caa5"@),
        ("Mediumblue"@, "0000c6"@),
        ("Mediumorchid"@, "b556ce"@),
        ("Mediumpurple"@, "8c6fd6"@),
        ("Mediumseagreen"@, "39b16b"@),
        ("Mediumslateblue"@, "7367e7"@),
        ("Mediumspringgreen"@, "00f794"@),
        ("Mediumturquoise"@, "42cec6"@),
        ("Mediumvioletred"@, "c61484"@),
        ("Midnightblue"@, "18186b"@),
        ("Mintcream"@, "effff7"@),
        ("Mistyrose"@, "ffe3de"@),
        ("Moccasin"@, "ffe3b5"@),
        ("Navajowhite"@, "ffdaad"@),
        ("Navy"@, "00007b"@),
        ("Oldlace"@, "f7f3de"@),
        ("Olive"@, "7b7f00"@),
        ("Olivered"@, "6b8c21"@),
        ("Orange"@, "ffa100"@),
        ("Orangered"@, "ff4600"@),
        ("Orchid"@, "d66fd6"@),
        ("Palegoldenrod"@, "e7e7a5"@),
        ("Palegreen"@, "94fb94"@),
        ("Paleturquoise"@, "adebe7"@),
        ("Palevioletred"@, "d66f8c"@),
        ("Papayawhip"@, "ffefce"@),
        ("Peachpuff"@, "ffd6b5"@),
        ("Peru"@, "c68039"@),
        ("Pink"@, "ffbdc6"@),
        ("Plum"@, "d69cd6"@),
        ("Powderblue"@, "addede"@),
        ("Purple"@, "7b007b"@),
        ("Red"@, "ff0000"@),
        ("Richblue"@, "08adde"@),
        ("Rosybrown"@, "b58c8c"@),
        ("Royalblue"@, "3967de"@),
        ("Saddlebrown"@, "844610"@),
        ("Salmon"@, "f77f6b"@),
        ("Sandybrown"@, "efa15a"@),
        ("Seagreen"@, "298852"@),
        ("Seashell"@, "fff3e7"@),
        ("Sienna"@, "9c5229"@),
        ("Silver"@, "bdbdbd"@),
        ("Skyblue"@, "84cae7"@),
        ("Slateblue"@, "635ac6"@),
        ("Slategray"@, "6b7f8c"@),
        ("Snow"@, "fff7f7"@),
        ("Springgreen"@, "00ff7b"@),
        ("Steelblue"@, "4280ad"@),
        ("Tan"@, "ceb18c"@),
        ("Teal"@, "007f7b"@),
        ("Thistle"@, "d6bdd6"@),
        ("Tomato"@, "ff6342"@),
        ("Turquoise"@, "39dece"@),
        ("Violet"@, "e780e7"@),
        ("Wheat"@, "efdaad"@),
        ("White"@, "ffffff"@),
        ("Whitesmoke"@, "eff3ef"@),
        ("Yellow"@, "ffff00"@),
        ("Yellowgreen"@, "94ca31"@),
    ]
}

/// The characters of each `(name, hex)` entry.
pub open spec fn pairs_view(s: Seq<(&str, &str)>) -> Seq<(Seq<char>, Seq<char>)> {
    Seq::new(s.len(), |i: int| (s[i].0@, s[i].1@))
}

/// The allowed color palette.
pub fn color_palette() -> (r: &'static [(&'static str, &'static str)])
    ensures
        pairs_view(r@) == palette_table(),
{
    let r: &'static [(&'static str, &'static str)] = &[
        ("Aliceblue", "eff7ff"),
        ("Antiquewhite", "f7ebd6"),
        ("Aqua", "00fbf7"),
        ("Aquamarine", "7bffce"),
        ("Azure", "efffff"),
        ("Beige", "eff3d6"),
        ("Bisque", "ffe3bd"),
        ("Black", "000000"),
        ("Blanchedalmond", "ffebc6"),
        ("Blue", "0000ff"),
        ("Blueviolet", "8429de"),
        ("Brass", "b5a542"),
        ("Brown", "a52929"),
        ("Burlywood", "d6b584"),
        ("Cadetblue", "5a9c9c"),
        ("Chartreuse", "7bff00"),
        ("Chocolate", "ce6718"),
        ("Coolcopper", "d68418"),
        ("Copper", "bd00de"),
        ("Coral", "ff7f4a"),
        ("Cornflower", "bdefde"),
        ("Cornflowerblue", "6390e7"),
        ("Cornsilk", "fff7d6"),
        ("Crimson", "d61039"),
        ("Cyan", "00ffff"),
        ("Darkblue", "000084"),
        ("Darkbrown", "d60800"),
        ("Darkcyan", "008884"),
        ("Darkgoldenrod", "b58408"),
        ("Darkgray", "a5a5a5"),
        ("Darkgreen", "006300"),
        ("Darkkhaki", "b5b56b"),
        ("Darkmagenta", "840084"),
        ("Darkolivegreen", "526b29"),
        ("Darkorange", "ff8800"),
        ("Darkorchid", "9431c6"),
        ("Darkred", "840000"),
        ("Darksalmon", "e79473"),
        ("Darkseagreen", "8cb98c"),
        ("Darkslateblue", "423d84"),
        ("Darkslategray", "294e4a"),
        ("Darkturquoise", "00cace"),
        ("Darkviolet", "8c00ce"),
        ("Deeppink", "ff108c"),
        ("Deepskyblue", "00bdff"),
        ("Dimgray", "636763"),
        ("Dodgerblue", "188cff"),
        ("Feldspar", "f7cede"),
        ("Firebrick", "ad2121"),
        ("Floralwhite", "fff7ef"),
        ("Forestgreen", "218821"),
        ("Fuchsia", "f700f7"),
        ("Gainsboro", "d6dad6"),
        ("Ghostwhite", "f7f7ff"),
        ("Gold", "ffd600"),
        ("Goldenrod", "d6a118"),
        ("Gray", "7b7f7b"),
        ("Green", "007f00"),
        ("Greenyellow", "adff29"),
        ("Honeydew", "efffef"),
        ("Hotpink", "ff67ad"),
        ("Indianred", "c65a5a"),
        ("Indigo", "4a007b"),
        ("Ivory", "ffffef"),
        ("Khaki", "efe38c"),
        ("Lavender", "dee3f7"),
        ("Lavenderblush", "ffefef"),
        ("Lawngreen", "7bfb00"),
        ("Lemonchiffon", "fff7c6"),
        ("Lightblue", "add6de"),
        ("Lightcoral", "ef7f7b"),
        ("Lightcyan", "deffff"),
        ("Lightgoldenrodyellow", "f7f7ce"),
        ("Lightgreen", "8ceb8c"),
        ("Lightgray", "ced2ce"),
        ("Lightpink", "ffb1bd"),
        ("Lightsalmon", "ff9c73"),
        ("Lightseagreen", "18ada5"),
        ("Lightskyblue", "84caf7"),
        ("Lightslategray", "738494"),
        ("Lightsteelblue", "adc2d6"),
        ("Lightyellow", "ffffde"),
        ("Lime", "00ff00"),
        ("Limegreen", "31ca31"),
        ("Linen", "f7efde"),
        ("Magenta", "ff00ff"),
        ("Maroon", "7b0000"),
        ("Mediumaquamarine", "63caa5"),
        ("Mediumblue", "0000c6"),
        ("Mediumorchid", "b556ce"),
        ("Mediumpurple", "8c6fd6"),
        ("Mediumseagreen", "39b16b"),
        ("Mediumslateblue", "7367e7"),
        ("Mediumspringgreen", "00f794"),
        ("Mediumturquoise", "42cec6"),
        ("Mediumvioletred", "c61484"),
        ("Midnightblue", "18186b"),
        ("Mintcream", "effff7"),
        ("Mistyrose", "ffe3de"),
        ("Moccasin", "ffe3b5"),
        ("Navajowhite", "ffdaad"),
        ("Navy", "00007b"),
        ("Oldlace", "f7f3de"),
        ("Olive", "7b7f00"),
        ("Olivered", "6b8c21"),
        ("Orange", "ffa100"),
        ("Orangered", "ff4600"),
        ("Orchid", "d66fd6"),
        ("Palegoldenrod", "e7e7a5"),
        ("Palegreen", "94fb94"),
        ("Paleturquoise", "adebe7"),
        ("Palevioletred", "d66f8c"),
        ("Papayawhip", "ffefce"),
        ("Peachpuff", "ffd6b5"),
        ("Peru", "c68039"),
        ("Pink", "ffbdc6"),
        ("Plum", "d69cd6"),
        ("Powderblue", "addede"),
        ("Purple", "7b007b"),
        ("Red", "ff0000"),
        ("Richblue", "08adde"),
        ("Rosybrown", "b58c8c"),
        ("Royalblue", "3967de"),
        ("Saddlebrown", "844610"),
        ("Salmon", "f77f6b"),
        ("Sandybrown", "efa15a"),
        ("Seagreen", "298852"),
        ("Seashell", "fff3e7"),
        ("Sienna", "9c5229"),
        ("Silver", "bdbdbd"),
        ("Skyblue", "84cae7"),
        ("Slateblue", "635ac6"),
        ("Slategray", "6b7f8c"),
        ("Snow", "fff7f7"),
        ("Springgreen", "00ff7b"),
        ("Steelblue", "4280ad"),
        ("Tan", "ceb18c"),
        ("Teal", "007f7b"),
        ("Thistle", "d6bdd6"),
        ("Tomato", "ff6342"),
        ("Turquoise", "39dece"),
        ("Violet", "e780e7"),
        ("Wheat", "efdaad"),
        ("White", "ffffff"),
        ("Whitesmoke", "eff3ef"),
        ("Yellow", "ffff00"),
        ("Yellowgreen", "94ca31"),
    ];
    assert(pairs_view(r@) =~= palette_table());
    r
}
/// A read view of one global display setting.
#[derive(Debug, Clone, PartialEq, Eq)]
pub struct GlobalSetting {
    pub key: String,
    pub label: String,
    pub value: String,
    pub options: Vec<String>,
}

impl View for GlobalSetting {
    type V = (Seq<char>, Seq<char>, Seq<char>, Seq<Seq<char>>);

    open spec fn view(&self) -> (Seq<char>, Seq<char>, Seq<char>, Seq<Seq<char>>) {
        (self.key@, self.label@, self.value@, strings_view(self.options@))
    }
}

/// The ordered item tokens for one `(DispOptId, DispLayoutId)`.
#[derive(Debug, Clone, PartialEq, Eq)]
pub struct ItemGroup {
    pub disp_opt_id: u64,
    pub disp_layout_id: u64,
    pub tokens: Vec<String>,
}

impl View for ItemGroup {
    type V = (u64, u64, Seq<Seq<char>>);

    open spec fn view(&self) -> (u64, u64, Seq<Seq<char>>) {
        (self.disp_opt_id, self.disp_layout_id, strings_view(self.tokens@))
    }
}

/// One text/background color pair.
#[derive(Debug, Clone, PartialEq, Eq)]
pub struct ColorPair {
    pub text: String,
    pub back: String,
}

/// The ordered color pairs for one `(DispColorId, ColorLayoutId)`.
#[derive(Debug, Clone, PartialEq, Eq)]
pub struct ColorGroup {
    pub disp_color_id: u64,
    pub color_layout_id: u64,
    pub pairs: Vec<ColorPair>,
}

impl View for ColorGroup {
    type V = (u64, u64, Seq<(Seq<char>, Seq<char>)>);

    open spec fn view(&self) -> (u64, u64, Seq<(Seq<char>, Seq<char>)>) {
        (
            self.disp_color_id,
            self.color_layout_id,
            Seq::new(self.pairs@.len(), |i: int| (self.pairs@[i].text@, self.pairs@[i].back@)),
        )
    }
}

pub open spec fn cmd_of(l: SpecLine) -> Seq<char> {
    spec_command(l.fields)
}

/// Index of the first line with command `c`.
pub open spec fn first_cmd(ls: Seq<SpecLine>, c: Seq<char>) -> Option<int>
    decreases ls.len(),
{
    if ls.len() == 0 {
        None
    } else {
        match first_cmd(ls.drop_last(), c) {
            Some(i) => Some(i),
            None => if cmd_of(ls.last()) == c { Some(ls.len() - 1) } else { None },
        }
    }
}

/// A field's text, or empty when the line is shorter.
pub open spec fn field_or_empty(l: SpecLine, col: int) -> Seq<char> {
    match spec_field(l.fields, col) {
        Some(v) => v,
        None => Seq::empty(),
    }
}

/// The setting one global spec reads: the first record with its command supplies
/// the value.
pub open spec fn global_of(
    ls: Seq<SpecLine>,
    g: (Seq<char>, Seq<char>, Seq<char>, usize, Seq<Seq<char>>),
) -> Option<(Seq<char>, Seq<char>, Seq<char>, Seq<Seq<char>>)> {
    match first_cmd(ls, g.0) {
        Some(li) => Some((g.1, g.2, field_or_empty(ls[li], g.3 as int), g.4)),
        None => None,
    }
}

/// The settings of the specs whose record is present, in table order.
pub open spec fn spec_globals(
    ls: Seq<SpecLine>,
    table: Seq<(Seq<char>, Seq<char>, Seq<char>, usize, Seq<Seq<char>>)>,
) -> Seq<(Seq<char>, Seq<char>, Seq<char>, Seq<Seq<char>>)>
    decreases table.len(),
{
    if table.len() == 0 {
        Seq::empty()
    } else {
        let prev = spec_globals(ls, table.drop_last());
        match global_of(ls, table.last()) {
            Some(g) => prev.push(g),
            None => prev,
        }
    }
}

/// Index of the first spec with the given key.
pub open spec fn first_key(
    table: Seq<(Seq<char>, Seq<char>, Seq<char>, usize, Seq<Seq<char>>)>,
    key: Seq<char>,
) -> Option<int>
    decreases table.len(),
{
    if table.len() == 0 {
        None
    } else {
        match first_key(table.drop_last(), key) {
            Some(i) => Some(i),
            None => if table.last().1 == key { Some(table.len() - 1) } else { None },
        }
    }
}

/// The group a `DispOptItems` record denotes: its two keyed ids and its tokens.
pub open spec fn item_of(l: SpecLine) -> Option<(u64, u64, Seq<Seq<char>>)> {
    if cmd_of(l) == "DispOptItems"@ {
        match (keyed_of(spec_field(l.fields, 1)), keyed_of(spec_field(l.fields, 2))) {
            (Some(a), Some(b)) => Some((a, b, l.fields.skip(if l.fields.len() < 3 { l.fields.len() as int } else { 3 }))),
            _ => None,
        }
    } else {
        None
    }
}

pub open spec fn spec_items(ls: Seq<SpecLine>) -> Seq<(u64, u64, Seq<Seq<char>>)>
    decreases ls.len(),
{
    if ls.len() == 0 {
        Seq::empty()
    } else {
        let prev = spec_items(ls.drop_last());
        match item_of(ls.last()) {
            Some(g) => prev.push(g),
            None => prev,
        }
    }
}

/// The whole `(text, back)` pairs of a run of fields.
pub open spec fn pairs_of(rest: Seq<Seq<char>>) -> Seq<(Seq<char>, Seq<char>)> {
    Seq::new(rest.len() / 2, |k: int| (rest[2 * k], rest[2 * k + 1]))
}

/// The group a `DispColors` record denotes: its two keyed ids and its color pairs.
pub open spec fn color_of(l: SpecLine) -> Option<(u64, u64, Seq<(Seq<char>, Seq<char>)>)> {
    if cmd_of(l) == "DispColors"@ {
        match (keyed_of(spec_field(l.fields, 1)), keyed_of(spec_field(l.fields, 2))) {
            (Some(a), Some(b)) => Some(
                (a, b, pairs_of(l.fields.skip(if l.fields.len() < 3 { l.fields.len() as int } else { 3 }))),
            ),
            _ => None,
        }
    } else {
        None
    }
}

pub open spec fn spec_colors(ls: Seq<SpecLine>) -> Seq<(u64, u64, Seq<(Seq<char>, Seq<char>)>)>
    decreases ls.len(),
{
    if ls.len() == 0 {
        Seq::empty()
    } else {
        let prev = spec_colors(ls.drop_last());
        match color_of(ls.last()) {
            Some(g) => prev.push(g),
            None => prev,
        }
    }
}

/// The line is a `command` record keyed by the two ids in fields 1 and 2.
pub open spec fn is_pair(l: SpecLine, c: Seq<char>, id1: u64, id2: u64) -> bool {
    &&& cmd_of(l) == c
    &&& keyed_of(spec_field(l.fields, 1)) == Some(id1)
    &&& keyed_of(spec_field(l.fields, 2)) == Some(id2)
}

/// Index of the first `command` record keyed by the two ids.
pub open spec fn first_pair(ls: Seq<SpecLine>, c: Seq<char>, id1: u64, id2: u64) -> Option<int>
    decreases ls.len(),
{
    if ls.len() == 0 {
        None
    } else {
        match first_pair(ls.drop_last(), c, id1, id2) {
            Some(i) => Some(i),
            None => if is_pair(ls.last(), c, id1, id2) { Some(ls.len() - 1) } else { None },
        }
    }
}

/// Setting field `col` of line `li` to `v` is an actual change.
pub open spec fn changes(ls: Seq<SpecLine>, li: int, col: int, v: Seq<char>) -> bool {
    0 <= col < ls[li].fields.len() && ls[li].fields[col] != v
}

proof fn lemma_first_cmd_found(ls: Seq<SpecLine>, c: Seq<char>, i: int)
    requires
        0 <= i < ls.len(),
        cmd_of(ls[i]) == c,
        forall|j: int| 0 <= j < i ==> cmd_of(#[trigger] ls[j]) != c,
    ensures
        first_cmd(ls, c) == Some(i),
    decreases ls.len(),
{
    if i < ls.len() - 1 {
        assert(ls.drop_last()[i] == ls[i]);
        assert forall|j: int| 0 <= j < i implies cmd_of(#[trigger] ls.drop_last()[j]) != c by {
            assert(ls.drop_last()[j] == ls[j]);
        }
        lemma_first_cmd_found(ls.drop_last(), c, i);
    } else {
        lemma_first_cmd_none(ls.drop_last(), c);
    }
}

proof fn lemma_first_cmd_none(ls: Seq<SpecLine>, c: Seq<char>)
    requires
        forall|j: int| 0 <= j < ls.len() ==> cmd_of(#[trigger] ls[j]) != c,
    ensures
        first_cmd(ls, c) is None,
    decreases ls.len(),
{
    if ls.len() > 0 {
        assert forall|j: int| 0 <= j < ls.len() - 1 implies cmd_of(#[trigger] ls.drop_last()[j]) != c by {
            assert(ls.drop_last()[j] == ls[j]);
        }
        lemma_first_cmd_none(ls.drop_last(), c);
        assert(cmd_of(ls[ls.len() - 1]) != c);
    }
}

proof fn lemma_first_pair_found(ls: Seq<SpecLine>, c: Seq<char>, id1: u64, id2: u64, i: int)
    requires
        0 <= i < ls.len(),
        is_pair(ls[i], c, id1, id2),
        forall|j: int| 0 <= j < i ==> !is_pair(#[trigger] ls[j], c, id1, id2),
    ensures
        first_pair(ls, c, id1, id2) == Some(i),
    decreases ls.len(),
{
    if i < ls.len() - 1 {
        assert(ls.drop_last()[i] == ls[i]);
        assert forall|j: int| 0 <= j < i implies !is_pair(#[trigger] ls.drop_last()[j], c, id1, id2) by {
            assert(ls.drop_last()[j] == ls[j]);
        }
        lemma_first_pair_found(ls.drop_last(), c, id1, id2, i);
    } else {
        lemma_first_pair_none(ls.drop_last(), c, id1, id2);
    }
}

proof fn lemma_first_pair_none(ls: Seq<SpecLine>, c: Seq<char>, id1: u64, id2: u64)
    requires
        forall|j: int| 0 <= j < ls.len() ==> !is_pair(#[trigger] ls[j], c, id1, id2),
    ensures
        first_pair(ls, c, id1, id2) is None,
    decreases ls.len(),
{
    if ls.len() > 0 {
        assert forall|j: int| 0 <= j < ls.len() - 1 implies !is_pair(#[trigger] ls.drop_last()[j], c, id1, id2) by {
            assert(ls.drop_last()[j] == ls[j]);
        }
        lemma_first_pair_none(ls.drop_last(), c, id1, id2);
        assert(!is_pair(ls[ls.len() - 1], c, id1, id2));
    }
}

/// The parsed display customization of a `profile.cfg`. Wraps the whole document so
/// every non-display record round-trips; edits touch only the targeted display field.
#[derive(Debug, Clone)]
pub struct DisplayConfig {
    doc: Document,
}

impl View for DisplayConfig {
    type V = Seq<SpecLine>;

    closed spec fn view(&self) -> Seq<SpecLine> {
        self.doc@
    }
}

impl DisplayConfig {
    /// Parse a whole `profile.cfg`.
    pub fn parse(raw: &[u8]) -> (res: Result<Self>)
        ensures
            match res {
                Ok(cfg) => all_file_bytes(raw@) && cfg@ == parse_lines(raw@),
                Err(e) => !all_file_bytes(raw@) && e == (Error::NonAscii {
                    offset: first_bad_byte(raw@) as usize,
                    byte: raw@[first_bad_byte(raw@)],
                }),
            },
    {
        match Document::parse(raw) {
            Ok(doc) => Ok(DisplayConfig { doc }),
            Err(e) => Err(e),
        }
    }

    /// Re-encode. `parse(raw).to_bytes() == raw` for an unedited config
    /// ([`lemma_unedited_round_trip`]).
    pub fn to_bytes(&self) -> (r: Vec<u8>)
        ensures
            r@ == doc_bytes(self@),
    {
        self.doc.to_bytes()
    }

    /// Index of the first line with the given command.
    fn find_command(&self, command: &str) -> (r: Option<usize>)
        ensures
            match first_cmd(self@, command@) {
                Some(i) => r matches Some(j) && j as int == i && 0 <= i < self@.len(),
                None => r is None,
            },
    {
        let mut i: usize = 0;
        while i < self.doc.lines.len()
            invariant
                i <= self.doc.lines@.len(),
                forall|j: int| 0 <= j < i ==> cmd_of(#[trigger] self.doc@[j]) != command@,
            decreases self.doc.lines@.len() - i,
        {
            if self.doc.lines[i].is_command(command) {
                proof { lemma_first_cmd_found(self.doc@, command@, i as int); }
                return Some(i);
            }
            i += 1;
        }
        proof { lemma_first_cmd_none(self.doc@, command@); }
        None
    }

    // --- Global settings (DisplayOption / Backlight) ---

    /// The identified global settings and their current values.
    pub fn globals(&self) -> (r: Vec<GlobalSetting>)
        ensures
            Seq::new(r@.len(), |i: int| r@[i]@) == spec_globals(self@, global_table()),
    {
        let specs = global_specs();
        let ghost table = global_table();
        let mut out: Vec<GlobalSetting> = Vec::new();
        let mut k: usize = 0;
        while k < specs.len()
            invariant
                k <= specs@.len(),
                table == global_table(),
                global_specs_view(specs@) == table,
                Seq::new(out@.len(), |i: int| out@[i]@) == spec_globals(self@, table.take(k as int)),
            decreases specs@.len() - k,
        {
            let spec = &specs[k];
            proof {
                assert(table.take(k + 1).drop_last() =~= table.take(k as int));
                assert(table.take(k + 1).last() == spec@);
            }
            let ghost before = Seq::new(out@.len(), |i: int| out@[i]@);
            match self.find_command(spec.command) {
                Some(li) => {
                    let value = match self.doc.lines[li].field(spec.col) {
                        Some(v) => copy_str(v),
                        None => String::new(),
                    };
                    let options = copy_strs(spec.options);
                    let g = GlobalSetting {
                        key: copy_str(spec.key),
                        label: copy_str(spec.label),
                        value,
                        options,
                    };
                    assert(self.doc.lines@[li as int]@ == self@[li as int]);
                    assert(g@.2 == field_or_empty(self@[li as int], spec.col as int));
                    assert(g@.3 == spec@.4);
                    assert(Some(g@) == global_of(self@, spec@));
                    out.push(g);
                    assert(Seq::new(out@.len(), |i: int| out@[i]@) =~= before.push(g@));
                },
                None => {},
            }
            k += 1;
        }
        assert(table.take(specs@.len() as int) =~= table);
        out
    }

    /// Set field `col` of line `li` to `value`.
    fn put_field(&mut self, li: usize, col: usize, value: &str)
        requires
            li < old(self)@.len(),
            col < old(self)@[li as int].fields.len(),
        ensures
            final(self)@ == set_field(old(self)@, li as int, col as int, value@),
    {
        let mut line = self.doc.lines[li].duplicate();
        assert(line@.fields.len() == line.fields@.len());
        line.fields.set(col, copy_str(value));
        let ghost before = self.doc@;
        assert(line@.fields =~= before[li as int].fields.update(col as int, value@));
        self.doc.lines.set(li, line);
        assert(self.doc@ =~= set_field(before, li as int, col as int, value@));
    }

    /// The text of field `col` of line `li` equals `value`.
    fn field_is(&self, li: usize, col: usize, value: &str) -> (r: bool)
        requires
            li < self@.len(),
            col < self@[li as int].fields.len(),
        ensures
            r == (self@[li as int].fields[col as int] == value@),
    {
        assert(self.doc.lines@[li as int]@ == self@[li as int]);
        str_eq(self.doc.lines[li].fields[col].as_str(), value)
    }

    fn field_count(&self, li: usize) -> (r: usize)
        requires
            li < self@.len(),
        ensures
            r == self@[li as int].fields.len(),
    {
        assert(self.doc.lines@[li as int]@ == self@[li as int]);
        self.doc.lines[li].fields.len()
    }

    /// Set a global setting by key. Returns `true` if a field actually changed
    /// (change-gated, so a no-op set re-encodes byte-for-byte identically).
    pub fn set_global(&mut self, key: &str, value: &str) -> (r: bool)
        ensures
            match first_key(global_table(), key@) {
                Some(gi) => match first_cmd(old(self)@, global_table()[gi].0) {
                    Some(li) => {
                        let col = global_table()[gi].3 as int;
                        &&& r == changes(old(self)@, li, col, value@)
                        &&& final(self)@ == if r { set_field(old(self)@, li, col, value@) } else { old(self)@ }
                    },
                    None => !r && final(self)@ == old(self)@,
                },
                None => !r && final(self)@ == old(self)@,
            },
    {
        let specs = global_specs();
        let gi = match find_global(specs, key) {
            Some(gi) => gi,
            None => {
                return false;
            },
        };
        let spec = &specs[gi];
        assert(spec@ == global_table()[gi as int]);
        let li = match self.find_command(spec.command) {
            Some(li) => li,
            None => {
                return false;
            },
        };
        let col = spec.col;
        if col >= self.field_count(li) || self.field_is(li, col, value) {
            return false;
        }
        self.put_field(li, col, value);
        true
    }

    // --- Item assignments (DispOptItems) ---

    /// Every `DispOptItems` group, in file order.
    pub fn items(&self) -> (r: Vec<ItemGroup>)
        ensures
            Seq::new(r@.len(), |i: int| r@[i]@) == spec_items(self@),
    {
        let ghost ls = self@;
        let mut out: Vec<ItemGroup> = Vec::new();
        let mut i: usize = 0;
        while i < self.doc.lines.len()
            invariant
                i <= self.doc.lines@.len(),
                ls == self@,
                ls == self.doc@,
                Seq::new(out@.len(), |k: int| out@[k]@) == spec_items(ls.take(i as int)),
            decreases self.doc.lines@.len() - i,
        {
            let l = &self.doc.lines[i];
            proof {
                assert(ls.take(i + 1).drop_last() =~= ls.take(i as int));
                assert(ls.take(i + 1).last() == l@);
            }
            let ghost before = Seq::new(out@.len(), |k: int| out@[k]@);
            if l.is_command("DispOptItems") {
                let a = match l.field(1) {
                    Some(f) => keyed_id(f),
                    None => None,
                };
                let b = match l.field(2) {
                    Some(f) => keyed_id(f),
                    None => None,
                };
                match (a, b) {
                    (Some(a), Some(b)) => {
                        let start: usize = if l.fields.len() < 3 { l.fields.len() } else { 3 };
                        let mut tokens: Vec<String> = Vec::new();
                        let mut j: usize = start;
                        while j < l.fields.len()
                            invariant
                                start <= j <= l.fields@.len(),
                                strings_view(tokens@) == strings_view(l.fields@).subrange(start as int, j as int),
                            decreases l.fields@.len() - j,
                        {
                            let ghost tb = strings_view(tokens@);
                            tokens.push(copy_str(l.fields[j].as_str()));
                            assert(strings_view(tokens@) =~= tb.push(l.fields@[j as int]@));
                            assert(strings_view(tokens@) =~= strings_view(l.fields@).subrange(start as int, j + 1));
                            j += 1;
                        }
                        let g = ItemGroup { disp_opt_id: a, disp_layout_id: b, tokens };
                        assert(strings_view(l.fields@).subrange(start as int, l.fields@.len() as int) =~= l@.fields.skip(start as int));
                        assert(Some(g@) == item_of(l@));
                        out.push(g);
                        assert(Seq::new(out@.len(), |k: int| out@[k]@) =~= before.push(g@));
                    },
                    _ => {},
                }
            }
            i += 1;
        }
        assert(ls.take(self.doc.lines@.len() as int) =~= ls);
        out
    }

    /// Index of the line for a record with the two keyed ids in fields 1 and 2.
    fn find_pair(&self, command: &str, id1: u64, id2: u64) -> (r: Option<usize>)
        ensures
            match first_pair(self@, command@, id1, id2) {
                Some(i) => r matches Some(j) && j as int == i && 0 <= i < self@.len(),
                None => r is None,
            },
    {
        let mut i: usize = 0;
        while i < self.doc.lines.len()
            invariant
                i <= self.doc.lines@.len(),
                forall|j: int| 0 <= j < i ==> !is_pair(#[trigger] self.doc@[j], command@, id1, id2),
            decreases self.doc.lines@.len() - i,
        {
            let l = &self.doc.lines[i];
            let a = match l.field(1) {
                Some(f) => keyed_id(f),
                None => None,
            };
            let b = match l.field(2) {
                Some(f) => keyed_id(f),
                None => None,
            };
            let hit = l.is_command(command) && a == Some(id1) && b == Some(id2);
            assert(hit == is_pair(self.doc@[i as int], command@, id1, id2));
            if hit {
                proof { lemma_first_pair_found(self.doc@, command@, id1, id2, i as int); }
                return Some(i);
            }
            i += 1;
        }
        proof { lemma_first_pair_none(self.doc@, command@, id1, id2); }
        None
    }

    /// Set the item token at `index` within a `(DispOptId, DispLayoutId)` group.
    /// Item order/count is fixed by the ids, so this only assigns within the existing
    /// range. Returns `true` if it changed a field.
    pub fn set_item_token(&mut self, disp_opt_id: u64, disp_layout_id: u64, index: usize, token: &str) -> (r: bool)
        requires
            index <= usize::MAX - 3,
        ensures
            match first_pair(old(self)@, "DispOptItems"@, disp_opt_id, disp_layout_id) {
                Some(li) => {
                    let col = 3 + index;
                    &&& r == changes(old(self)@, li, col, token@)
                    &&& final(self)@ == if r { set_field(old(self)@, li, col, token@) } else { old(self)@ }
                },
                None => !r && final(self)@ == old(self)@,
            },
    {
        let li = match self.find_pair("DispOptItems", disp_opt_id, disp_layout_id) {
            Some(li) => li,
            None => {
                return false;
            },
        };
        let col = 3 + index;
        if col >= self.field_count(li) || self.field_is(li, col, token) {
            return false;
        }
        self.put_field(li, col, token);
        true
    }

    // --- Colors (DispColors) ---

    /// Every `DispColors` group, in file order.
    pub fn colors(&self) -> (r: Vec<ColorGroup>)
        ensures
            Seq::new(r@.len(), |i: int| r@[i]@) == spec_colors(self@),
    {
        let ghost ls = self@;
        let mut out: Vec<ColorGroup> = Vec::new();
        let mut i: usize = 0;
        while i < self.doc.lines.len()
            invariant
                i <= self.doc.lines@.len(),
                ls == self@,
                ls == self.doc@,
                Seq::new(out@.len(), |k: int| out@[k]@) == spec_colors(ls.take(i as int)),
            decreases self.doc.lines@.len() - i,
        {
            let l = &self.doc.lines[i];
            proof {
                assert(ls.take(i + 1).drop_last() =~= ls.take(i as int));
                assert(ls.take(i + 1).last() == l@);
            }
            let ghost before = Seq::new(out@.len(), |k: int| out@[k]@);
            if l.is_command("DispColors") {
                let a = match l.field(1) {
                    Some(f) => keyed_id(f),
                    None => None,
                };
                let b = match l.field(2) {
                    Some(f) => keyed_id(f),
                    None => None,
                };
                match (a, b) {
                    (Some(a), Some(b)) => {
                        let n = l.fields.len();
                        let start: usize = if n < 3 { n } else { 3 };
                        let ghost rest = l@.fields.skip(start as int);
                        let mut pairs: Vec<ColorPair> = Vec::new();
                        let mut k: usize = 0;
                        while k < (n - start) / 2
                            invariant
                                start <= n,
                                n == l.fields@.len(),
                                rest == l@.fields.skip(start as int),
                                k <= (n - start) / 2,
                                Seq::new(pairs@.len(), |m: int| (pairs@[m].text@, pairs@[m].back@)) == pairs_of(rest).take(k as int),
                            decreases (n - start) / 2 - k,
                        {
                            let ghost pb = Seq::new(pairs@.len(), |m: int| (pairs@[m].text@, pairs@[m].back@));
                            let p = ColorPair {
                                text: copy_str(l.fields[start + 2 * k].as_str()),
                                back: copy_str(l.fields[start + 2 * k + 1].as_str()),
                            };
                            assert(rest[2 * k as int] == l.fields@[start + 2 * k]@);
                            assert(rest[2 * k + 1] == l.fields@[start + 2 * k + 1]@);
                            pairs.push(p);
                            assert(Seq::new(pairs@.len(), |m: int| (pairs@[m].text@, pairs@[m].back@)) =~= pb.push((p.text@, p.back@)));
                            assert(Seq::new(pairs@.len(), |m: int| (pairs@[m].text@, pairs@[m].back@)) =~= pairs_of(rest).take(k + 1));
                            k += 1;
                        }
                        assert(pairs_of(rest).take(((n - start) / 2) as int) =~= pairs_of(rest));
                        let g = ColorGroup { disp_color_id: a, color_layout_id: b, pairs };
                        assert(Some(g@) == color_of(l@));
                        out.push(g);
                        assert(Seq::new(out@.len(), |k: int| out@[k]@) =~= before.push(g@));
                    },
                    _ => {},
                }
            }
            i += 1;
        }
        assert(ls.take(self.doc.lines@.len() as int) =~= ls);
        out
    }

    /// Set the text+back colors of pair `index` within a `(DispColorId,
    /// ColorLayoutId)` group. Colors are 6-hex strings from [`color_palette`].
    /// Returns `true` if a field changed.
    pub fn set_color(
        &mut self,
        disp_color_id: u64,
        color_layout_id: u64,
        index: usize,
        text: &str,
        back: &str,
    ) -> (r: bool)
        requires
            index <= (usize::MAX - 4) / 2,
        ensures
            match first_pair(old(self)@, "DispColors"@, disp_color_id, color_layout_id) {
                Some(li) => {
                    let tc = 3 + 2 * index;
                    let bc = tc + 1;
                    if bc < old(self)@[li].fields.len() {
                        &&& r == (changes(old(self)@, li, tc, text@) || changes(old(self)@, li, bc, back@))
                        &&& final(self)@ == set_field(set_field(old(self)@, li, tc, text@), li, bc, back@)
                        &&& !r ==> final(self)@ == old(self)@
                    } else {
                        !r && final(self)@ == old(self)@
                    }
                },
                None => !r && final(self)@ == old(self)@,
            },
    {
        let li = match self.find_pair("DispColors", disp_color_id, color_layout_id) {
            Some(li) => li,
            None => {
                return false;
            },
        };
        let tc = 3 + index * 2;
        let bc = tc + 1;
        if bc >= self.field_count(li) {
            return false;
        }
        let ghost orig = self@;
        let mut changed = false;
        if !self.field_is(li, tc, text) {
            self.put_field(li, tc, text);
            changed = true;
        } else {
            assert(set_field(orig, li as int, tc as int, text@) =~= orig) by {
                assert(orig[li as int].fields.update(tc as int, text@) =~= orig[li as int].fields);
            }
        }
        let ghost mid = self@;
        assert(mid == set_field(orig, li as int, tc as int, text@));
        assert(mid[li as int].fields.len() == orig[li as int].fields.len());
        if !self.field_is(li, bc, back) {
            self.put_field(li, bc, back);
            changed = true;
        } else {
            assert(set_field(mid, li as int, bc as int, back@) =~= mid) by {
                assert(mid[li as int].fields.update(bc as int, back@) =~= mid[li as int].fields);
            }
        }
        assert(mid[li as int].fields[bc as int] == orig[li as int].fields[bc as int]);
        changed
    }
}

/// Owned copies of some string slices.
fn copy_strs(src: &[&str]) -> (r: Vec<String>)
    ensures
        strings_view(r@) == strs_view(src@),
{
    let mut out: Vec<String> = Vec::new();
    let mut m: usize = 0;
    while m < src.len()
        invariant
            m <= src@.len(),
            strings_view(out@) == strs_view(src@).take(m as int),
        decreases src@.len() - m,
    {
        let ghost ob = strings_view(out@);
        out.push(copy_str(src[m]));
        assert(strings_view(out@) =~= ob.push(src@[m as int]@));
        assert(strs_view(src@).take(m + 1) =~= strs_view(src@).take(m as int).push(src@[m as int]@));
        m += 1;
    }
    assert(strs_view(src@).take(src@.len() as int) =~= strs_view(src@));
    out
}

/// Position of the first spec with the given key.
fn find_global(specs: &[GlobalSpec], key: &str) -> (r: Option<usize>)
    requires
        global_specs_view(specs@) == global_table(),
    ensures
        match first_key(global_table(), key@) {
            Some(i) => r matches Some(j) && j as int == i && 0 <= i < specs@.len(),
            None => r is None,
        },
{
    let ghost table = global_table();
    let mut k: usize = 0;
    while k < specs.len()
        invariant
            k <= specs@.len(),
            table == global_table(),
            global_specs_view(specs@) == table,
            first_key(table.take(k as int), key@) is None,
        decreases specs@.len() - k,
    {
        proof {
            assert(table.take(k + 1).drop_last() =~= table.take(k as int));
            assert(table.take(k + 1).last() == specs@[k as int]@);
        }
        if str_eq(specs[k].key, key) {
            proof { lemma_first_key_prefix(table, key@, k as int); }
            return Some(k);
        }
        k += 1;
    }
    assert(table.take(specs@.len() as int) =~= table);
    None
}

proof fn lemma_first_key_prefix(
    table: Seq<(Seq<char>, Seq<char>, Seq<char>, usize, Seq<Seq<char>>)>,
    key: Seq<char>,
    i: int,
)
    requires
        0 <= i < table.len(),
        first_key(table.take(i), key) is None,
        table[i].1 == key,
    ensures
        first_key(table, key) == Some(i),
    decreases table.len(),
{
    assert(table.take(i + 1).drop_last() =~= table.take(i));
    if table.len() > i + 1 {
        assert(table.drop_last().take(i) =~= table.take(i));
        lemma_first_key_prefix(table.drop_last(), key, i);
    } else {
        assert(table.take(i + 1) =~= table);
    }
}

/// An unedited display configuration re-encodes to exactly the bytes it was
/// parsed from.
pub proof fn lemma_unedited_round_trip(raw: Seq<u8>, cfg: DisplayConfig)
    requires
        all_file_bytes(raw),
        cfg@ == parse_lines(raw),
    ensures
        doc_bytes(cfg@) == raw,
{
    crate::format::lemma_parse_then_serialize(raw);
}


/// The post-state of a change-gated field write: the write when it changes the
/// field, else the lines unchanged.
pub open spec fn gated_write(ls: Seq<SpecLine>, li: int, col: int, v: Seq<char>) -> Seq<SpecLine> {
    if changes(ls, li, col, v) { set_field(ls, li, col, v) } else { ls }
}

proof fn lemma_gated_write(ls: Seq<SpecLine>, li: int, col: int, v: Seq<char>)
    requires
        0 <= li < ls.len(),
        0 <= col < ls[li].fields.len(),
    ensures
        gated_write(ls, li, col, v) == set_field(ls, li, col, v),
        set_field(ls, li, col, v)[li].fields == ls[li].fields.update(col, v),
        set_field(ls, li, col, v).len() == ls.len(),
{
    if !changes(ls, li, col, v) {
        assert(ls[li].fields.update(col, v) =~= ls[li].fields);
        assert(set_field(ls, li, col, v) =~= ls);
    }
}

proof fn lemma_first_cmd_same_commands(ls: Seq<SpecLine>, ls2: Seq<SpecLine>, c: Seq<char>)
    requires
        ls.len() == ls2.len(),
        forall|j: int| 0 <= j < ls.len() ==> cmd_of(#[trigger] ls[j]) == cmd_of(ls2[j]),
    ensures
        first_cmd(ls2, c) == first_cmd(ls, c),
    decreases ls.len(),
{
    if ls.len() > 0 {
        assert forall|j: int| 0 <= j < ls.len() - 1 implies cmd_of(#[trigger] ls.drop_last()[j]) == cmd_of(
            ls2.drop_last()[j],
        ) by {
            assert(ls.drop_last()[j] == ls[j]);
            assert(ls2.drop_last()[j] == ls2[j]);
        }
        lemma_first_cmd_same_commands(ls.drop_last(), ls2.drop_last(), c);
        assert(cmd_of(ls[ls.len() - 1]) == cmd_of(ls2[ls.len() - 1]));
    }
}

proof fn lemma_first_cmd_sound(ls: Seq<SpecLine>, c: Seq<char>)
    ensures
        match first_cmd(ls, c) {
            Some(i) => 0 <= i < ls.len() && cmd_of(ls[i]) == c,
            None => true,
        },
    decreases ls.len(),
{
    if ls.len() > 0 {
        lemma_first_cmd_sound(ls.drop_last(), c);
        match first_cmd(ls.drop_last(), c) {
            Some(i) => { assert(ls.drop_last()[i] == ls[i]); },
            None => {},
        }
    }
}

proof fn lemma_first_pair_sound(ls: Seq<SpecLine>, c: Seq<char>, id1: u64, id2: u64)
    ensures
        match first_pair(ls, c, id1, id2) {
            Some(i) => 0 <= i < ls.len() && is_pair(ls[i], c, id1, id2),
            None => true,
        },
    decreases ls.len(),
{
    if ls.len() > 0 {
        lemma_first_pair_sound(ls.drop_last(), c, id1, id2);
        match first_pair(ls.drop_last(), c, id1, id2) {
            Some(i) => { assert(ls.drop_last()[i] == ls[i]); },
            None => {},
        }
    }
}

proof fn lemma_globals_contain(
    ls: Seq<SpecLine>,
    table: Seq<(Seq<char>, Seq<char>, Seq<char>, usize, Seq<Seq<char>>)>,
    gi: int,
)
    requires
        0 <= gi < table.len(),
        global_of(ls, table[gi]) is Some,
    ensures
        spec_globals(ls, table).contains(global_of(ls, table[gi])->0),
    decreases table.len(),
{
    let prev = spec_globals(ls, table.drop_last());
    if gi < table.len() - 1 {
        assert(table.drop_last()[gi] == table[gi]);
        lemma_globals_contain(ls, table.drop_last(), gi);
        let g = global_of(ls, table[gi])->0;
        let k = choose|k: int| 0 <= k < prev.len() && prev[k] == g;
        match global_of(ls, table.last()) {
            Some(x) => { assert(prev.push(x)[k] == g); },
            None => {},
        }
    } else {
        assert(spec_globals(ls, table) == prev.push(global_of(ls, table[gi])->0));
        assert(prev.push(global_of(ls, table[gi])->0)[prev.len() as int] == global_of(ls, table[gi])->0);
    }
}

/// A global setting reads back what was written: after `set_global` writes
/// `value` for a key whose record and column are present, the settings hold that
/// key with `value`.
pub proof fn lemma_set_global_reads_back(ls: Seq<SpecLine>, gi: int, li: int, value: Seq<char>)
    requires
        0 <= gi < global_table().len(),
        first_cmd(ls, global_table()[gi].0) == Some(li),
        (global_table()[gi].3 as int) < ls[li].fields.len(),
    ensures
        spec_globals(gated_write(ls, li, global_table()[gi].3 as int, value), global_table()).contains(
            (global_table()[gi].1, global_table()[gi].2, value, global_table()[gi].4),
        ),
{
    let g = global_table()[gi];
    let col = g.3 as int;
    lemma_first_cmd_sound(ls, g.0);
    assert(col >= 1) by {
        assert(global_table()[0].3 == 6usize);
        assert(global_table()[1].3 == 11usize);
    }
    lemma_gated_write(ls, li, col, value);
    let after = set_field(ls, li, col, value);
    assert forall|j: int| 0 <= j < ls.len() implies cmd_of(#[trigger] ls[j]) == cmd_of(after[j]) by {
        if j == li {
            assert(after[j].fields[0] == ls[j].fields[0]);
        }
    }
    lemma_first_cmd_same_commands(ls, after, g.0);
    assert(field_or_empty(after[li], col) == value);
    lemma_globals_contain(after, global_table(), gi);
}

proof fn lemma_items_contain(ls: Seq<SpecLine>, j: int)
    requires
        0 <= j < ls.len(),
        item_of(ls[j]) is Some,
    ensures
        spec_items(ls).contains(item_of(ls[j])->0),
    decreases ls.len(),
{
    let prev = spec_items(ls.drop_last());
    if j < ls.len() - 1 {
        assert(ls.drop_last()[j] == ls[j]);
        lemma_items_contain(ls.drop_last(), j);
        let g = item_of(ls[j])->0;
        let k = choose|k: int| 0 <= k < prev.len() && prev[k] == g;
        match item_of(ls.last()) {
            Some(x) => { assert(prev.push(x)[k] == g); },
            None => {},
        }
    } else {
        assert(prev.push(item_of(ls[j])->0)[prev.len() as int] == item_of(ls[j])->0);
    }
}

/// An item token reads back what was written: after `set_item_token` writes
/// `token` at `index` of a present group (in range), that group's tokens are the
/// old ones with `token` at `index`.
pub proof fn lemma_set_item_token_reads_back(
    ls: Seq<SpecLine>,
    disp_opt_id: u64,
    disp_layout_id: u64,
    li: int,
    index: int,
    token: Seq<char>,
)
    requires
        first_pair(ls, "DispOptItems"@, disp_opt_id, disp_layout_id) == Some(li),
        0 <= index,
        3 + index < ls[li].fields.len(),
    ensures
        spec_items(gated_write(ls, li, 3 + index, token)).contains(
            (disp_opt_id, disp_layout_id, ls[li].fields.skip(3).update(index, token)),
        ),
{
    lemma_first_pair_sound(ls, "DispOptItems"@, disp_opt_id, disp_layout_id);
    lemma_gated_write(ls, li, 3 + index, token);
    let after = set_field(ls, li, 3 + index, token);
    let f = ls[li].fields;
    let f2 = after[li].fields;
    assert(f2[0] == f[0] && f2[1] == f[1] && f2[2] == f[2]);
    assert(f2.skip(3) =~= f.skip(3).update(index, token));
    lemma_items_contain(after, li);
}

proof fn lemma_colors_contain(ls: Seq<SpecLine>, j: int)
    requires
        0 <= j < ls.len(),
        color_of(ls[j]) is Some,
    ensures
        spec_colors(ls).contains(color_of(ls[j])->0),
    decreases ls.len(),
{
    let prev = spec_colors(ls.drop_last());
    if j < ls.len() - 1 {
        assert(ls.drop_last()[j] == ls[j]);
        lemma_colors_contain(ls.drop_last(), j);
        let g = color_of(ls[j])->0;
        let k = choose|k: int| 0 <= k < prev.len() && prev[k] == g;
        match color_of(ls.last()) {
            Some(x) => { assert(prev.push(x)[k] == g); },
            None => {},
        }
    } else {
        assert(prev.push(color_of(ls[j])->0)[prev.len() as int] == color_of(ls[j])->0);
    }
}

/// A color pair reads back what was written: after `set_color` writes
/// `(text, back)` at pair `index` of a present group (in range), that group's
/// pairs are the old ones with `(text, back)` at `index`.
pub proof fn lemma_set_color_reads_back(
    ls: Seq<SpecLine>,
    disp_color_id: u64,
    color_layout_id: u64,
    li: int,
    index: int,
    text: Seq<char>,
    back: Seq<char>,
)
    requires
        first_pair(ls, "DispColors"@, disp_color_id, color_layout_id) == Some(li),
        0 <= index,
        3 + 2 * index + 1 < ls[li].fields.len(),
    ensures
        spec_colors(set_field(set_field(ls, li, 3 + 2 * index, text), li, 3 + 2 * index + 1, back)).contains(
            (
                disp_color_id,
                color_layout_id,
                pairs_of(ls[li].fields.skip(3)).update(index, (text, back)),
            ),
        ),
{
    lemma_first_pair_sound(ls, "DispColors"@, disp_color_id, color_layout_id);
    let tc = 3 + 2 * index;
    let mid = set_field(ls, li, tc, text);
    let after = set_field(mid, li, tc + 1, back);
    let f = ls[li].fields;
    let f2 = after[li].fields;
    assert(f2 == f.update(tc, text).update(tc + 1, back));
    assert(f2[0] == f[0] && f2[1] == f[1] && f2[2] == f[2]);
    let r = f.skip(3);
    let r2 = f2.skip(3);
    assert(r2 =~= r.update(2 * index, text).update(2 * index + 1, back));
    assert(pairs_of(r2) =~= pairs_of(r).update(index, (text, back))) by {
        assert(r2.len() == r.len());
        assert forall|k: int| 0 <= k < pairs_of(r2).len() implies pairs_of(r2)[k] == pairs_of(r).update(
            index,
            (text, back),
        )[k] by {
            if k == index {
            } else {
                assert(2 * k != 2 * index && 2 * k != 2 * index + 1);
                assert(2 * k + 1 != 2 * index && 2 * k + 1 != 2 * index + 1);
            }
        }
    }
    lemma_colors_contain(after, li);
}

} // verus!
