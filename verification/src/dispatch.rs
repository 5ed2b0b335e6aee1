//! The generic `setting` / `getting` names and the brand command that each
//! of them maps to, with the placeholders the command takes.
use vstd::prelude::*;
use crate::text::{lemma_lookup_first_at, lookup, str_eq};

verus! {

/// One generic name, the brand command it resolves to and that command's
/// placeholders.
#[derive(Clone, Copy)]
pub struct Dispatch {
    pub name: &'static str,
    pub command: &'static str,
    pub params: &'static [&'static str],
}

/// A dispatch entry as `(name, (command, params))`.
pub open spec fn dispatch_view(d: Dispatch) -> (Seq<char>, (Seq<char>, Seq<Seq<char>>)) {
    (d.name@, (d.command@, d.params@.map_values(|p: &str| p@)))
}

pub open spec fn dispatch_views(t: Seq<Dispatch>) -> Seq<(Seq<char>, (Seq<char>, Seq<Seq<char>>))> {
    t.map_values(|d: Dispatch| dispatch_view(d))
}

pub open spec fn ch() -> Seq<char> {
    "ch"@
}

pub open spec fn val() -> Seq<char> {
    "val"@
}

/// The settings table.
pub open spec fn settings_spec() -> Seq<(Seq<char>, (Seq<char>, Seq<Seq<char>>))> {
    seq![
        ("channel_on"@, ("set_ch_on"@, seq![ch()])),
        ("channel_off"@, ("set_ch_off"@, seq![ch()])),
        ("vertical_scale"@, ("set_v_scale"@, seq![ch(), val()])),
        ("vertical_offset"@, ("set_v_offset"@, seq![ch(), val()])),
        ("coupling"@, ("set_coupling"@, seq![ch(), val()])),
        ("timebase"@, ("set_h_scale"@, seq![val()])),
        ("time_position"@, ("set_h_pos"@, seq![val()])),
        ("trigger_source"@, ("set_trig_source"@, seq![ch()])),
        ("trigger_level"@, ("set_trig_level"@, seq![ch(), val()])),
        ("trigger_slope"@, ("set_trig_slope"@, seq![ch(), val()])),
    ]
}

/// The gettings table.
pub open spec fn gettings_spec() -> Seq<(Seq<char>, (Seq<char>, Seq<Seq<char>>))> {
    seq![
        ("channel_check"@, ("check_ch"@, seq![ch()])),
        ("vertical_scale"@, ("get_v_scale"@, seq![ch()])),
        ("vertical_offset"@, ("get_v_offset"@, seq![ch()])),
        ("coupling"@, ("get_coupling"@, seq![ch()])),
        ("timebase"@, ("get_h_scale"@, Seq::empty())),
        ("time_position"@, ("get_h_pos"@, Seq::empty())),
        ("trigger_source"@, ("get_trig_source"@, seq![ch()])),
        ("trigger_level"@, ("get_trig_level"@, seq![ch()])),
        ("trigger_slope"@, ("get_trig_slope"@, seq![ch()])),
    ]
}

/// Each generic setting resolves to its own brand command and placeholders:
/// `timebase` to `set_h_scale` with `val`, `time_position` to `set_h_pos`,
/// `channel_on` to `set_ch_on` with `ch`, and so on for every setting.
pub proof fn lemma_settings_table()
    ensures
        lookup(settings_spec(), "channel_on"@) == Some(("set_ch_on"@, seq!["ch"@])),
        lookup(settings_spec(), "channel_off"@) == Some(("set_ch_off"@, seq!["ch"@])),
        lookup(settings_spec(), "vertical_scale"@) == Some(("set_v_scale"@, seq!["ch"@, "val"@])),
        lookup(settings_spec(), "vertical_offset"@) == Some(("set_v_offset"@, seq!["ch"@, "val"@])),
        lookup(settings_spec(), "coupling"@) == Some(("set_coupling"@, seq!["ch"@, "val"@])),
        lookup(settings_spec(), "timebase"@) == Some(("set_h_scale"@, seq!["val"@])),
        lookup(settings_spec(), "time_position"@) == Some(("set_h_pos"@, seq!["val"@])),
        lookup(settings_spec(), "trigger_source"@) == Some(("set_trig_source"@, seq!["ch"@])),
        lookup(settings_spec(), "trigger_level"@) == Some(("set_trig_level"@, seq!["ch"@, "val"@])),
        lookup(settings_spec(), "trigger_slope"@) == Some(("set_trig_slope"@, seq!["ch"@, "val"@])),
{
    reveal_strlit("ch");
    reveal_strlit("channel_off");
    reveal_strlit("channel_on");
    reveal_strlit("coupling");
    reveal_strlit("set_ch_off");
    reveal_strlit("set_ch_on");
    reveal_strlit("set_coupling");
    reveal_strlit("set_h_pos");
    reveal_strlit("set_h_scale");
    reveal_strlit("set_trig_level");
    reveal_strlit("set_trig_slope");
    reveal_strlit("set_trig_source");
    reveal_strlit("set_v_offset");
    reveal_strlit("set_v_scale");
    reveal_strlit("time_position");
    reveal_strlit("timebase");
    reveal_strlit("trigger_level");
    reveal_strlit("trigger_slope");
    reveal_strlit("trigger_source");
    reveal_strlit("val");
    reveal_strlit("vertical_offset");
    reveal_strlit("vertical_scale");
    assert("channel_on"@ != "channel_off"@) by {
        assert("channel_on"@.len() != "channel_off"@.len());
    }
    assert("channel_on"@ != "vertical_scale"@) by {
        assert("channel_on"@.len() != "vertical_scale"@.len());
    }
    assert("channel_off"@ != "vertical_scale"@) by {
        assert("channel_off"@.len() != "vertical_scale"@.len());
    }
    assert("channel_on"@ != "vertical_offset"@) by {
        assert("channel_on"@.len() != "vertical_offset"@.len());
    }
    assert("channel_off"@ != "vertical_offset"@) by {
        assert("channel_off"@.len() != "vertical_offset"@.len());
    }
    assert("vertical_scale"@ != "vertical_offset"@) by {
        assert("vertical_scale"@.len() != "vertical_offset"@.len());
    }
    assert("channel_on"@ != "coupling"@) by {
        assert("channel_on"@.len() != "coupling"@.len());
    }
    assert("channel_off"@ != "coupling"@) by {
        assert("channel_off"@.len() != "coupling"@.len());
    }
    assert("vertical_scale"@ != "coupling"@) by {
        assert("vertical_scale"@.len() != "coupling"@.len());
    }
    assert("vertical_offset"@ != "coupling"@) by {
        assert("vertical_offset"@.len() != "coupling"@.len());
    }
    assert("channel_on"@ != "timebase"@) by {
        assert("channel_on"@.len() != "timebase"@.len());
    }
    assert("channel_off"@ != "timebase"@) by {
        assert("channel_off"@.len() != "timebase"@.len());
    }
    assert("vertical_scale"@ != "timebase"@) by {
        assert("vertical_scale"@.len() != "timebase"@.len());
    }
    assert("vertical_offset"@ != "timebase"@) by {
        assert("vertical_offset"@.len() != "timebase"@.len());
    }
    assert("coupling"@ != "timebase"@) by {
        assert("coupling"@[0] != "timebase"@[0]);
    }
    assert("channel_on"@ != "time_position"@) by {
        assert("channel_on"@.len() != "time_position"@.len());
    }
    assert("channel_off"@ != "time_position"@) by {
        assert("channel_off"@.len() != "time_position"@.len());
    }
    assert("vertical_scale"@ != "time_position"@) by {
        assert("vertical_scale"@.len() != "time_position"@.len());
    }
    assert("vertical_offset"@ != "time_position"@) by {
        assert("vertical_offset"@.len() != "time_position"@.len());
    }
    assert("coupling"@ != "time_position"@) by {
        assert("coupling"@.len() != "time_position"@.len());
    }
    assert("timebase"@ != "time_position"@) by {
        assert("timebase"@.len() != "time_position"@.len());
    }
    assert("channel_on"@ != "trigger_source"@) by {
        assert("channel_on"@.len() != "trigger_source"@.len());
    }
    assert("channel_off"@ != "trigger_source"@) by {
        assert("channel_off"@.len() != "trigger_source"@.len());
    }
    assert("vertical_scale"@ != "trigger_source"@) by {
        assert("vertical_scale"@[0] != "trigger_source"@[0]);
    }
    assert("vertical_offset"@ != "trigger_source"@) by {
        assert("vertical_offset"@.len() != "trigger_source"@.len());
    }
    assert("coupling"@ != "trigger_source"@) by {
        assert("coupling"@.len() != "trigger_source"@.len());
    }
    assert("timebase"@ != "trigger_source"@) by {
        assert("timebase"@.len() != "trigger_source"@.len());
    }
    assert("time_position"@ != "trigger_source"@) by {
        assert("time_position"@.len() != "trigger_source"@.len());
    }
    assert("channel_on"@ != "trigger_level"@) by {
        assert("channel_on"@.len() != "trigger_level"@.len());
    }
    assert("channel_off"@ != "trigger_level"@) by {
        assert("channel_off"@.len() != "trigger_level"@.len());
    }
    assert("vertical_scale"@ != "trigger_level"@) by {
        assert("vertical_scale"@.len() != "trigger_level"@.len());
    }
    assert("vertical_offset"@ != "trigger_level"@) by {
        assert("vertical_offset"@.len() != "trigger_level"@.len());
    }
    assert("coupling"@ != "trigger_level"@) by {
        assert("coupling"@.len() != "trigger_level"@.len());
    }
    assert("timebase"@ != "trigger_level"@) by {
        assert("timebase"@.len() != "trigger_level"@.len());
    }
    assert("time_position"@ != "trigger_level"@) by {
        assert("time_position"@[1] != "trigger_level"@[1]);
    }
    assert("trigger_source"@ != "trigger_level"@) by {
        assert("trigger_source"@.len() != "trigger_level"@.len());
    }
    assert("channel_on"@ != "trigger_slope"@) by {
        assert("channel_on"@.len() != "trigger_slope"@.len());
    }
    assert("channel_off"@ != "trigger_slope"@) by {
        assert("channel_off"@.len() != "trigger_slope"@.len());
    }
    assert("vertical_scale"@ != "trigger_slope"@) by {
        assert("vertical_scale"@.len() != "trigger_slope"@.len());
    }
    assert("vertical_offset"@ != "trigger_slope"@) by {
        assert("vertical_offset"@.len() != "trigger_slope"@.len());
    }
    assert("coupling"@ != "trigger_slope"@) by {
        assert("coupling"@.len() != "trigger_slope"@.len());
    }
    assert("timebase"@ != "trigger_slope"@) by {
        assert("timebase"@.len() != "trigger_slope"@.len());
    }
    assert("time_position"@ != "trigger_slope"@) by {
        assert("time_position"@[1] != "trigger_slope"@[1]);
    }
    assert("trigger_source"@ != "trigger_slope"@) by {
        assert("trigger_source"@.len() != "trigger_slope"@.len());
    }
    assert("trigger_level"@ != "trigger_slope"@) by {
        assert("trigger_level"@[8] != "trigger_slope"@[8]);
    }
    let t = settings_spec();
    lemma_lookup_first_at(t, t[0].0, 0);
    lemma_lookup_first_at(t, t[1].0, 1);
    lemma_lookup_first_at(t, t[2].0, 2);
    lemma_lookup_first_at(t, t[3].0, 3);
    lemma_lookup_first_at(t, t[4].0, 4);
    lemma_lookup_first_at(t, t[5].0, 5);
    lemma_lookup_first_at(t, t[6].0, 6);
    lemma_lookup_first_at(t, t[7].0, 7);
    lemma_lookup_first_at(t, t[8].0, 8);
    lemma_lookup_first_at(t, t[9].0, 9);
}

/// Each generic getting resolves to its own brand query and placeholders:
/// `vertical_offset` to `get_v_offset` with `ch`, `vertical_scale` to
/// `get_v_scale`, `channel_check` to `check_ch`, and so on for every getting.
pub proof fn lemma_gettings_table()
    ensures
        lookup(gettings_spec(), "channel_check"@) == Some(("check_ch"@, seq!["ch"@])),
        lookup(gettings_spec(), "vertical_scale"@) == Some(("get_v_scale"@, seq!["ch"@])),
        lookup(gettings_spec(), "vertical_offset"@) == Some(("get_v_offset"@, seq!["ch"@])),
        lookup(gettings_spec(), "coupling"@) == Some(("get_coupling"@, seq!["ch"@])),
        lookup(gettings_spec(), "timebase"@) == Some(("get_h_scale"@, Seq::<Seq<char>>::empty())),
        lookup(gettings_spec(), "time_position"@) == Some(("get_h_pos"@, Seq::<Seq<char>>::empty())),
        lookup(gettings_spec(), "trigger_source"@) == Some(("get_trig_source"@, seq!["ch"@])),
        lookup(gettings_spec(), "trigger_level"@) == Some(("get_trig_level"@, seq!["ch"@])),
        lookup(gettings_spec(), "trigger_slope"@) == Some(("get_trig_slope"@, seq!["ch"@])),
{
    reveal_strlit("ch");
    reveal_strlit("channel_check");
    reveal_strlit("check_ch");
    reveal_strlit("coupling");
    reveal_strlit("get_coupling");
    reveal_strlit("get_h_pos");
    reveal_strlit("get_h_scale");
    reveal_strlit("get_trig_level");
    reveal_strlit("get_trig_slope");
    reveal_strlit("get_trig_source");
    reveal_strlit("get_v_offset");
    reveal_strlit("get_v_scale");
    reveal_strlit("time_position");
    reveal_strlit("timebase");
    reveal_strlit("trigger_level");
    reveal_strlit("trigger_slope");
    reveal_strlit("trigger_source");
    reveal_strlit("vertical_offset");
    reveal_strlit("vertical_scale");
    assert("channel_check"@ != "vertical_scale"@) by {
        assert("channel_check"@.len() != "vertical_scale"@.len());
    }
    assert("channel_check"@ != "vertical_offset"@) by {
        assert("channel_check"@.len() != "vertical_offset"@.len());
    }
    assert("vertical_scale"@ != "vertical_offset"@) by {
        assert("vertical_scale"@.len() != "vertical_offset"@.len());
    }
    assert("channel_check"@ != "coupling"@) by {
        assert("channel_check"@.len() != "coupling"@.len());
    }
    assert("vertical_scale"@ != "coupling"@) by {
        assert("vertical_scale"@.len() != "coupling"@.len());
    }
    assert("vertical_offset"@ != "coupling"@) by {
        assert("vertical_offset"@.len() != "coupling"@.len());
    }
    assert("channel_check"@ != "timebase"@) by {
        assert("channel_check"@.len() != "timebase"@.len());
    }
    assert("vertical_scale"@ != "timebase"@) by {
        assert("vertical_scale"@.len() != "timebase"@.len());
    }
    assert("vertical_offset"@ != "timebase"@) by {
        assert("vertical_offset"@.len() != "timebase"@.len());
    }
    assert("coupling"@ != "timebase"@) by {
        assert("coupling"@[0] != "timebase"@[0]);
    }
    assert("channel_check"@ != "time_position"@) by {
        assert("channel_check"@[0] != "time_position"@[0]);
    }
    assert("vertical_scale"@ != "time_position"@) by {
        assert("vertical_scale"@.len() != "time_position"@.len());
    }
    assert("vertical_offset"@ != "time_position"@) by {
        assert("vertical_offset"@.len() != "time_position"@.len());
    }
    assert("coupling"@ != "time_position"@) by {
        assert("coupling"@.len() != "time_position"@.len());
    }
    assert("timebase"@ != "time_position"@) by {
        assert("timebase"@.len() != "time_position"@.len());
    }
    assert("channel_check"@ != "trigger_source"@) by {
        assert("channel_check"@.len() != "trigger_source"@.len());
    }
    assert("vertical_scale"@ != "trigger_source"@) by {
        assert("vertical_scale"@[0] != "trigger_source"@[0]);
    }
    assert("vertical_offset"@ != "trigger_source"@) by {
        assert("vertical_offset"@.len() != "trigger_source"@.len());
    }
    assert("coupling"@ != "trigger_source"@) by {
        assert("coupling"@.len() != "trigger_source"@.len());
    }
    assert("timebase"@ != "trigger_source"@) by {
        assert("timebase"@.len() != "trigger_source"@.len());
    }
    assert("time_position"@ != "trigger_source"@) by {
        assert("time_position"@.len() != "trigger_source"@.len());
    }
    assert("channel_check"@ != "trigger_level"@) by {
        assert("channel_check"@[0] != "trigger_level"@[0]);
    }
    assert("vertical_scale"@ != "trigger_level"@) by {
        assert("vertical_scale"@.len() != "trigger_level"@.len());
    }
    assert("vertical_offset"@ != "trigger_level"@) by {
        assert("vertical_offset"@.len() != "trigger_level"@.len());
    }
    assert("coupling"@ != "trigger_level"@) by {
        assert("coupling"@.len() != "trigger_level"@.len());
    }
    assert("timebase"@ != "trigger_level"@) by {
        assert("timebase"@.len() != "trigger_level"@.len());
    }
    assert("time_position"@ != "trigger_level"@) by {
        assert("time_position"@[1] != "trigger_level"@[1]);
    }
    assert("trigger_source"@ != "trigger_level"@) by {
        assert("trigger_source"@.len() != "trigger_level"@.len());
    }
    assert("channel_check"@ != "trigger_slope"@) by {
        assert("channel_check"@[0] != "trigger_slope"@[0]);
    }
    assert("vertical_scale"@ != "trigger_slope"@) by {
        assert("vertical_scale"@.len() != "trigger_slope"@.len());
    }
    assert("vertical_offset"@ != "trigger_slope"@) by {
        assert("vertical_offset"@.len() != "trigger_slope"@.len());
    }
    assert("coupling"@ != "trigger_slope"@) by {
        assert("coupling"@.len() != "trigger_slope"@.len());
    }
    assert("timebase"@ != "trigger_slope"@) by {
        assert("timebase"@.len() != "trigger_slope"@.len());
    }
    assert("time_position"@ != "trigger_slope"@) by {
        assert("time_position"@[1] != "trigger_slope"@[1]);
    }
    assert("trigger_source"@ != "trigger_slope"@) by {
        assert("trigger_source"@.len() != "trigger_slope"@.len());
    }
    assert("trigger_level"@ != "trigger_slope"@) by {
        assert("trigger_level"@[8] != "trigger_slope"@[8]);
    }
    let t = gettings_spec();
    lemma_lookup_first_at(t, t[0].0, 0);
    lemma_lookup_first_at(t, t[1].0, 1);
    lemma_lookup_first_at(t, t[2].0, 2);
    lemma_lookup_first_at(t, t[3].0, 3);
    lemma_lookup_first_at(t, t[4].0, 4);
    lemma_lookup_first_at(t, t[5].0, 5);
    lemma_lookup_first_at(t, t[6].0, 6);
    lemma_lookup_first_at(t, t[7].0, 7);
    lemma_lookup_first_at(t, t[8].0, 8);
}

fn entry(name: &'static str, command: &'static str, params: &'static [&'static str]) -> (d:
    Dispatch)
    ensures
        d.name == name,
        d.command == command,
        d.params == params,
{
    Dispatch { name, command, params }
}

/// The generic names that `setting` accepts, with their brand commands.
pub fn settings() -> (t: Vec<Dispatch>)
    ensures
        dispatch_views(t@) == settings_spec(),
{
    let t = vec![
        entry("channel_on", "set_ch_on", &["ch"]),
        entry("channel_off", "set_ch_off", &["ch"]),
        entry("vertical_scale", "set_v_scale", &["ch", "val"]),
        entry("vertical_offset", "set_v_offset", &["ch", "val"]),
        entry("coupling", "set_coupling", &["ch", "val"]),
        entry("timebase", "set_h_scale", &["val"]),
        entry("time_position", "set_h_pos", &["val"]),
        entry("trigger_source", "set_trig_source", &["ch"]),
        entry("trigger_level", "set_trig_level", &["ch", "val"]),
        entry("trigger_slope", "set_trig_slope", &["ch", "val"]),
    ];
    assert(dispatch_views(t@) =~~= settings_spec());
    t
}

/// The generic names that `getting` accepts, with their brand commands.
pub fn gettings() -> (t: Vec<Dispatch>)
    ensures
        dispatch_views(t@) == gettings_spec(),
{
    let t = vec![
        entry("channel_check", "check_ch", &["ch"]),
        entry("vertical_scale", "get_v_scale", &["ch"]),
        entry("vertical_offset", "get_v_offset", &["ch"]),
        entry("coupling", "get_coupling", &["ch"]),
        entry("timebase", "get_h_scale", &[]),
        entry("time_position", "get_h_pos", &[]),
        entry("trigger_source", "get_trig_source", &["ch"]),
        entry("trigger_level", "get_trig_level", &["ch"]),
        entry("trigger_slope", "get_trig_slope", &["ch"]),
    ];
    assert(dispatch_views(t@) =~~= gettings_spec());
    t
}

/// The brand command and placeholders of the first entry named `name`.
pub fn find_in(table: &Vec<Dispatch>, name: &str) -> (r: Option<(&'static str, &'static [&'static str])>)
    ensures
        match r {
            Some((c, p)) => lookup(dispatch_views(table@), name@) == Some(
                (c@, p@.map_values(|s: &str| s@)),
            ),
            None => lookup(dispatch_views(table@), name@) is None,
        },
{
    let ghost entries = dispatch_views(table@);
    assert(entries.subrange(0, entries.len() as int) =~= entries);
    let mut i: usize = 0;
    while i < table.len()
        invariant
            i <= table@.len(),
            entries == dispatch_views(table@),
            lookup(entries, name@) == lookup(entries.subrange(i as int, entries.len() as int), name@),
        decreases table@.len() - i,
    {
        let d = table[i];
        if str_eq(d.name, name) {
            return Some((d.command, d.params));
        }
        proof {
            crate::text::lemma_lookup_skip(entries, name@, i as int);
        }
        i = i + 1;
    }
    None
}

/// The names of a table, in table order.
pub open spec fn names(t: Seq<(Seq<char>, (Seq<char>, Seq<Seq<char>>))>) -> Seq<Seq<char>> {
    t.map_values(|e: (Seq<char>, (Seq<char>, Seq<Seq<char>>))| e.0)
}

fn table_names(t: &Vec<Dispatch>) -> (r: Vec<&'static str>)
    ensures
        r@.map_values(|s: &str| s@) == names(dispatch_views(t@)),
{
    let mut r: Vec<&'static str> = Vec::new();
    let mut i: usize = 0;
    while i < t.len()
        invariant
            i <= t@.len(),
            r@.map_values(|s: &str| s@) == names(dispatch_views(t@)).subrange(0, i as int),
        decreases t@.len() - i,
    {
        let ghost before = r@;
        r.push(t[i].name);
        proof {
            assert(names(dispatch_views(t@))[i as int] == t@[i as int].name@);
            assert(r@.map_values(|s: &str| s@) =~= before.map_values(|s: &str| s@).push(
                t@[i as int].name@,
            ));
        }
        i = i + 1;
        assert(r@.map_values(|s: &str| s@) =~= names(dispatch_views(t@)).subrange(0, i as int));
    }
    assert(names(dispatch_views(t@)).subrange(0, i as int) =~= names(dispatch_views(t@)));
    r
}

/// The generic setting names, in table order.
pub fn available_settings() -> (r: Vec<&'static str>)
    ensures
        r@.map_values(|s: &str| s@) == names(settings_spec()),
{
    table_names(&settings())
}

/// The generic getting names, in table order.
pub fn available_gettings() -> (r: Vec<&'static str>)
    ensures
        r@.map_values(|s: &str| s@) == names(gettings_spec()),
{
    table_names(&gettings())
}

} // verus!
