//! Saving, choosing, overwriting and deleting presets.

use vstd::prelude::*;

use crate::settings::{App, Preset, PresetModel, SettingsModel};
use crate::text::{
    chars_of, decimal, is_white_space, lemma_parse_decimal, lemma_trim_end, lemma_trim_start, push_char, push_decimal, push_str, take_at_most, trim, trim_bounds,
    without_chars,
};

verus! {

/// Characters that a preset name cannot hold: they would break its line in
/// the configuration file.
pub open spec fn banned_in_name(c: char) -> bool {
    c == '=' || c == ',' || c == '\n' || c == '\r'
}

/// The longest name a preset gets, in characters.
pub const NAME_MAX_CHARS: usize = 24;

/// The name that the text typed in the name field gives: trimmed, without the
/// banned characters, at most 24 characters long.
pub open spec fn sanitized_name(typed: Seq<char>) -> Seq<char> {
    take_at_most(without_chars(trim(typed), |c: char| banned_in_name(c)), NAME_MAX_CHARS as nat)
}

/// The name under which a new preset is saved: the typed name, or
/// `Preset <n>` with `n` one more than the number of presets.
pub open spec fn new_preset_name_spec(typed: Seq<char>, count: nat) -> Seq<char> {
    if sanitized_name(typed).len() > 0 {
        sanitized_name(typed)
    } else {
        "Preset "@ + decimal(count + 1)
    }
}

/// The presets after saving `p`: it replaces the first preset of its name,
/// or is added at the end when there is none.
pub open spec fn save_into(ps: Seq<PresetModel>, p: PresetModel) -> Seq<PresetModel> {
    if exists|i: int| 0 <= i < ps.len() && #[trigger] ps[i].name == p.name {
        let i = choose|i: int|
            0 <= i < ps.len() && #[trigger] ps[i].name == p.name && forall|j: int|
                0 <= j < i ==> ps[j].name != p.name;
        ps.update(i, p)
    } else {
        ps.push(p)
    }
}

proof fn lemma_save_into_at(ps: Seq<PresetModel>, p: PresetModel, i: int)
    requires
        0 <= i < ps.len(),
        ps[i].name == p.name,
        forall|j: int| 0 <= j < i ==> ps[j].name != p.name,
    ensures
        save_into(ps, p) == ps.update(i, p),
{
    let c = choose|k: int|
        0 <= k < ps.len() && #[trigger] ps[k].name == p.name && forall|j: int|
            0 <= j < k ==> ps[j].name != p.name;
    assert(0 <= c < ps.len() && ps[c].name == p.name && forall|j: int|
        0 <= j < c ==> ps[j].name != p.name);
    if c < i {
        assert(ps[c].name != p.name);
    }
    if i < c {
        assert(ps[i].name != p.name);
    }
}

proof fn lemma_save_into_new(ps: Seq<PresetModel>, p: PresetModel)
    requires
        forall|i: int| 0 <= i < ps.len() ==> #[trigger] ps[i].name != p.name,
    ensures
        save_into(ps, p) == ps.push(p),
{
}

/// The name that `typed` gives a preset, as `sanitized_name` says.
pub fn sanitize_preset_name(typed: &str) -> (name: String)
    ensures
        name@ == sanitized_name(typed@),
{
    let v = chars_of(typed);
    let (a, b) = trim_bounds(&v);
    let ghost t = trim(typed@);
    let ghost banned = |c: char| banned_in_name(c);
    let mut name = String::new();
    let ghost mut kept: Seq<char> = Seq::empty();
    let mut count: usize = 0;
    let mut i = a;
    proof {
        assert(t.take(0) =~= Seq::<char>::empty());
    }
    while i < b
        invariant
            a <= i <= b <= v@.len(),
            t == v@.subrange(a as int, b as int),
            kept == without_chars(t.take(i - a), banned),
            name@ == take_at_most(kept, NAME_MAX_CHARS as nat),
            count == name@.len(),
            banned == (|c: char| banned_in_name(c)),
        decreases b - i,
    {
        let c = v[i];
        proof {
            assert(t.take(i - a + 1).drop_last() =~= t.take(i - a));
            assert(t.take(i - a + 1).last() == c);
        }
        if !(c == '=' || c == ',' || c == '\n' || c == '\r') {
            if count < NAME_MAX_CHARS {
                push_char(&mut name, c);
                count = count + 1;
            }
            proof {
                let k2 = kept.push(c);
                if kept.len() < NAME_MAX_CHARS {
                    assert(name@ =~= take_at_most(k2, NAME_MAX_CHARS as nat));
                } else {
                    assert(k2.take(NAME_MAX_CHARS as int) =~= kept.take(NAME_MAX_CHARS as int));
                }
                kept = k2;
            }
        }
        i = i + 1;
    }
    proof {
        assert(t.take(b - a) =~= t);
    }
    name
}

impl App {
    /// Whether preset `i` is the current one.
    pub fn is_current_preset(&self, i: usize) -> (b: bool)
        requires
            i < self.presets@.len(),
        ensures
            b == (self.settings().current_preset == Some(self.settings().presets[i as int].name)),
    {
        match &self.current_preset {
            Some(c) => *c == self.presets[i].name,
            None => false,
        }
    }

    /// Whether preset `i` is the current one and the settings have changed
    /// since it was saved or applied.
    pub fn preset_is_dirty(&self, i: usize) -> (b: bool)
        requires
            i < self.presets@.len(),
        ensures
            b == (self.settings().current_preset == Some(self.settings().presets[i as int].name)
                && self.settings().capture(self.settings().presets[i as int].name)
                != self.settings().presets[i as int]),
    {
        if !self.is_current_preset(i) {
            return false;
        }
        let captured = self.capture_preset(self.presets[i].name.clone());
        !captured.same_as(&self.presets[i])
    }

    /// The name under which the "+" button saves a new preset.
    pub fn name_for_new_preset(&self) -> (name: String)
        requires
            self.presets@.len() < usize::MAX,
        ensures
            name@ == new_preset_name_spec(self.new_preset_name@, self.presets@.len() as nat),
    {
        let typed = sanitize_preset_name(self.new_preset_name.as_str());
        if typed.as_str().is_empty() {
            let mut n = String::new();
            push_str(&mut n, "Preset ");
            push_decimal(&mut n, (self.presets.len() + 1) as u64);
            n
        } else {
            typed
        }
    }

    /// Saves `p` into the presets, as `save_into` says.
    fn save_preset(&mut self, p: Preset)
        ensures
            final(self).settings() == (SettingsModel {
                presets: save_into(old(self).settings().presets, p@),
                ..old(self).settings()
            }),
            final(self).same_window_state(old(self)),
    {
        let ghost before = self.settings();
        let ghost pm = p@;
        match self.find_preset(&p.name) {
            Some(i) => {
                proof {
                    assert(before.presets[i as int].name == pm.name);
                    lemma_save_into_at(before.presets, pm, i as int);
                }
                self.presets.set(i, p);
                assert(self.settings().presets =~= before.presets.update(i as int, pm));
            },
            None => {
                proof {
                    lemma_save_into_new(before.presets, pm);
                }
                self.presets.push(p);
                assert(self.settings().presets =~= before.presets.push(pm));
            },
        }
        assert(self.settings() =~= (SettingsModel {
            presets: save_into(before.presets, pm),
            ..before
        }));
    }

    /// The label of preset `i` in the list: its name, with a mark when it is
    /// the current preset and the settings have changed since.
    pub fn preset_label(&self, i: usize) -> (t: String)
        requires
            i < self.presets@.len(),
        ensures
            t@ == self.settings().presets[i as int].name + if self.settings().current_preset == Some(
                self.settings().presets[i as int].name,
            ) && self.settings().capture(self.settings().presets[i as int].name)
                != self.settings().presets[i as int] {
                " \u{2022}"@
            } else {
                Seq::<char>::empty()
            },
    {
        let mut t = self.presets[i].name.clone();
        if self.preset_is_dirty(i) {
            push_str(&mut t, " \u{2022}");
        }
        t
    }

    /// Saves the current settings as a preset under the typed name (or
    /// `Preset <n>`), makes it the current preset and empties the name field.
    pub fn add_preset(&mut self)
        requires
            old(self).presets@.len() < usize::MAX,
        ensures
            final(self).settings() == after_add(
                old(self).settings(),
                new_preset_name_spec(old(self).new_preset_name@, old(self).presets@.len() as nat),
            ),
            final(self).new_preset_name@ == Seq::<char>::empty(),
            final(self).advanced_open == old(self).advanced_open,
            final(self).saved@ == old(self).saved@,
    {
        let ghost before = self.settings();
        let name = self.name_for_new_preset();
        let p = self.capture_preset(name.clone());
        self.current_preset = Some(name);
        self.save_preset(p);
        self.new_preset_name = String::new();
    }

    /// Chooses the "Default" entry: takes over its settings and leaves no
    /// current preset.
    pub fn select_default(&mut self)
        ensures
            final(self).settings() == (SettingsModel {
                current_preset: None,
                ..old(self).settings().with_values_of(crate::settings::default_preset_values())
            }),
            final(self).same_window_state(old(self)),
    {
        self.apply_default();
        self.current_preset = None;
    }

    /// Chooses preset `i`: takes over its settings and makes it the current
    /// preset.
    pub fn select_preset(&mut self, i: usize)
        requires
            i < old(self).presets@.len(),
        ensures
            final(self).settings() == after_select(old(self).settings(), i as int),
            final(self).same_window_state(old(self)),
    {
        let p = self.presets[i].duplicate();
        self.apply_preset(&p);
        self.current_preset = Some(p.name);
    }

    /// Overwrites preset `i` with the current settings, under its own name.
    pub fn overwrite_preset(&mut self, i: usize)
        requires
            i < old(self).presets@.len(),
        ensures
            final(self).settings() == after_overwrite(old(self).settings(), i as int),
            final(self).same_window_state(old(self)),
    {
        let ghost before = self.settings();
        let p = self.capture_preset(self.presets[i].name.clone());
        self.presets.set(i, p);
        assert(self.settings().presets =~= before.presets.update(
            i as int,
            before.capture(before.presets[i as int].name),
        ));
        assert(self.settings() =~= after_overwrite(before, i as int));
    }

    /// Deletes preset `i`; when it was the current one, no preset is current.
    pub fn delete_preset(&mut self, i: usize)
        requires
            i < old(self).presets@.len(),
        ensures
            final(self).settings() == after_delete(old(self).settings(), i as int),
            final(self).same_window_state(old(self)),
    {
        let ghost before = self.settings();
        if self.is_current_preset(i) {
            self.current_preset = None;
        }
        self.presets.remove(i);
        assert(self.settings().presets =~= before.presets.remove(i as int));
        assert(self.settings() =~= after_delete(before, i as int));
    }
}

// ---------------------------------------------------------------------------
// Laws
// ---------------------------------------------------------------------------

/// The settings after the "+" button saved the current settings as `name`.
pub open spec fn after_add(st: SettingsModel, name: Seq<char>) -> SettingsModel {
    SettingsModel {
        presets: save_into(st.presets, st.capture(name)),
        current_preset: Some(name),
        ..st
    }
}

/// The settings after preset `i` was deleted.
pub open spec fn after_delete(st: SettingsModel, i: int) -> SettingsModel {
    SettingsModel {
        presets: st.presets.remove(i),
        current_preset: if st.current_preset == Some(st.presets[i].name) {
            None
        } else {
            st.current_preset
        },
        ..st
    }
}

/// The settings after preset `i` was chosen.
pub open spec fn after_select(st: SettingsModel, i: int) -> SettingsModel {
    SettingsModel { current_preset: Some(st.presets[i].name), ..st.with_values_of(st.presets[i]) }
}

/// The settings after preset `i` was overwritten with the current settings.
pub open spec fn after_overwrite(st: SettingsModel, i: int) -> SettingsModel {
    SettingsModel { presets: st.presets.update(i, st.capture(st.presets[i].name)), ..st }
}

/// Saving places the preset: afterwards some preset of its name holds it, and
/// every other preset is kept.
pub proof fn lemma_save_into_places(ps: Seq<PresetModel>, p: PresetModel)
    ensures
        exists|k: int| 0 <= k < save_into(ps, p).len() && #[trigger] save_into(ps, p)[k] == p,
        forall|j: int|
            0 <= j < ps.len() && #[trigger] ps[j].name != p.name ==> save_into(ps, p)[j] == ps[j],
        save_into(ps, p).len() >= ps.len(),
        forall|j: int|
            0 <= j < save_into(ps, p).len() ==> #[trigger] save_into(ps, p)[j].name == p.name || (
            j < ps.len() && save_into(ps, p)[j] == ps[j]),
{
    if exists|i: int| 0 <= i < ps.len() && #[trigger] ps[i].name == p.name {
        let i = choose|i: int|
            0 <= i < ps.len() && #[trigger] ps[i].name == p.name && forall|j: int|
                0 <= j < i ==> ps[j].name != p.name;
        let w = choose|i: int| 0 <= i < ps.len() && #[trigger] ps[i].name == p.name;
        lemma_first_named_exists(ps, p.name, w);
        assert(save_into(ps, p)[i] == p);
    } else {
        assert(save_into(ps, p)[ps.len() as int] == p);
    }
}

/// When some preset has a name, a first one has it.
proof fn lemma_first_named_exists(ps: Seq<PresetModel>, name: Seq<char>, w: int)
    requires
        0 <= w < ps.len(),
        ps[w].name == name,
    ensures
        exists|i: int|
            0 <= i < ps.len() && #[trigger] ps[i].name == name && forall|j: int|
                0 <= j < i ==> ps[j].name != name,
    decreases w,
{
    if exists|j: int| 0 <= j < w && ps[j].name == name {
        let j = choose|j: int| 0 <= j < w && ps[j].name == name;
        lemma_first_named_exists(ps, name, j);
    } else {
        assert(ps[w].name == name && forall|j: int| 0 <= j < w ==> ps[j].name != name);
    }
}

/// After the "+" button, the current preset is a saved preset, and a saved
/// preset holds the current settings under that name.
pub proof fn lemma_add_current_saved(st: SettingsModel, name: Seq<char>)
    ensures
        after_add(st, name).current_is_saved(),
        exists|k: int|
            0 <= k < after_add(st, name).presets.len() && #[trigger] after_add(st, name).presets[k]
                == after_add(st, name).capture(name),
{
    let a = after_add(st, name);
    lemma_save_into_places(st.presets, st.capture(name));
    let k = choose|k: int|
        0 <= k < save_into(st.presets, st.capture(name)).len() && #[trigger] save_into(
            st.presets,
            st.capture(name),
        )[k] == st.capture(name);
    assert(a.presets[k].name == name);
    assert(a.capture(name) == st.capture(name));
}

/// The "+" button keeps preset names unique.
pub proof fn lemma_add_keeps_names_unique(st: SettingsModel, name: Seq<char>)
    requires
        st.names_unique(),
    ensures
        after_add(st, name).names_unique(),
{
    let ps = st.presets;
    let p = st.capture(name);
    let a = after_add(st, name);
    if exists|i: int| 0 <= i < ps.len() && #[trigger] ps[i].name == p.name {
        let i = choose|i: int|
            0 <= i < ps.len() && #[trigger] ps[i].name == p.name && forall|j: int|
                0 <= j < i ==> ps[j].name != p.name;
        let w = choose|i: int| 0 <= i < ps.len() && #[trigger] ps[i].name == p.name;
        lemma_first_named_exists(ps, p.name, w);
        assert(a.presets == ps.update(i, p));
        assert forall|x: int, y: int|
            0 <= x < a.presets.len() && 0 <= y < a.presets.len() && x != y implies #[trigger] a.presets[x].name
            != #[trigger] a.presets[y].name by {
            assert(ps[x].name != ps[y].name);
        }
    } else {
        assert(a.presets == ps.push(p));
        assert forall|x: int, y: int|
            0 <= x < a.presets.len() && 0 <= y < a.presets.len() && x != y implies #[trigger] a.presets[x].name
            != #[trigger] a.presets[y].name by {
            if x < ps.len() && y < ps.len() {
                assert(ps[x].name != ps[y].name);
            } else if x < ps.len() {
                assert(ps[x].name != p.name);
            } else {
                assert(ps[y].name != p.name);
            }
        }
    }
}

/// Deleting preset `i` removes that preset and no other: the presets before
/// it stay in place, those after it move up by one, the settings stay, and
/// the current preset is cleared exactly when it was the deleted one's name.
pub proof fn lemma_delete_removes_one(st: SettingsModel, i: int)
    requires
        0 <= i < st.presets.len(),
    ensures
        after_delete(st, i).presets.len() == st.presets.len() - 1,
        forall|k: int| 0 <= k < i ==> #[trigger] after_delete(st, i).presets[k] == st.presets[k],
        forall|k: int|
            i <= k < st.presets.len() - 1 ==> #[trigger] after_delete(st, i).presets[k]
                == st.presets[k + 1],
        forall|x: Seq<char>| #[trigger] after_delete(st, i).capture(x) == st.capture(x),
        st.current_preset == Some(st.presets[i].name) ==> after_delete(st, i).current_preset
            is None,
        st.current_preset != Some(st.presets[i].name) ==> after_delete(st, i).current_preset
            == st.current_preset,
{
}

/// Deleting a preset keeps the current preset, if any, among the saved ones.
pub proof fn lemma_delete_keeps_current_saved(st: SettingsModel, i: int)
    requires
        0 <= i < st.presets.len(),
        st.current_is_saved(),
    ensures
        after_delete(st, i).current_is_saved(),
{
    let a = after_delete(st, i);
    if let Some(c) = a.current_preset {
        assert(st.current_preset == Some(c));
        let k = choose|k: int| 0 <= k < st.presets.len() && #[trigger] st.presets[k].name == c;
        assert(k != i);
        if k < i {
            assert(a.presets[k] == st.presets[k]);
        } else {
            assert(a.presets[k - 1] == st.presets[k]);
        }
    }
}

/// Deleting a preset keeps preset names unique.
pub proof fn lemma_delete_keeps_names_unique(st: SettingsModel, i: int)
    requires
        0 <= i < st.presets.len(),
        st.names_unique(),
    ensures
        after_delete(st, i).names_unique(),
{
    let a = after_delete(st, i);
    assert forall|x: int, y: int|
        0 <= x < a.presets.len() && 0 <= y < a.presets.len() && x != y implies #[trigger] a.presets[x].name
        != #[trigger] a.presets[y].name by {
        let x2 = if x < i {
            x
        } else {
            x + 1
        };
        let y2 = if y < i {
            y
        } else {
            y + 1
        };
        assert(a.presets[x] == st.presets[x2]);
        assert(a.presets[y] == st.presets[y2]);
        assert(st.presets[x2].name != st.presets[y2].name);
    }
}

/// Choosing a preset makes it current, and it then holds the current settings.
pub proof fn lemma_select_current_clean(st: SettingsModel, i: int)
    requires
        0 <= i < st.presets.len(),
    ensures
        after_select(st, i).current_preset == Some(st.presets[i].name),
        after_select(st, i).presets == st.presets,
        after_select(st, i).current_is_saved(),
        after_select(st, i).capture(st.presets[i].name) == st.presets[i],
{
    let a = after_select(st, i);
    assert(a.presets[i].name == st.presets[i].name);
    assert(a.capture(st.presets[i].name) =~= st.presets[i]);
}

/// Overwriting a preset keeps the names, and the preset then holds the current
/// settings.
pub proof fn lemma_overwrite_clean(st: SettingsModel, i: int)
    requires
        0 <= i < st.presets.len(),
    ensures
        after_overwrite(st, i).presets[i] == after_overwrite(st, i).capture(st.presets[i].name),
        after_overwrite(st, i).presets[i] == st.capture(st.presets[i].name),
        after_overwrite(st, i).presets.len() == st.presets.len(),
        forall|j: int|
            0 <= j < st.presets.len() && j != i ==> #[trigger] after_overwrite(st, i).presets[j]
                == st.presets[j],
        after_overwrite(st, i).current_preset == st.current_preset,
        forall|x: Seq<char>| #[trigger] after_overwrite(st, i).capture(x) == st.capture(x),
        forall|j: int|
            0 <= j < st.presets.len() ==> #[trigger] after_overwrite(st, i).presets[j].name
                == st.presets[j].name,
        st.current_is_saved() ==> after_overwrite(st, i).current_is_saved(),
        st.names_unique() ==> after_overwrite(st, i).names_unique(),
{
    let a = after_overwrite(st, i);
    if let Some(c) = st.current_preset {
        if st.current_is_saved() {
            let k = choose|k: int| 0 <= k < st.presets.len() && #[trigger] st.presets[k].name == c;
            assert(a.presets[k].name == c);
        }
    }
    if st.names_unique() {
        assert forall|x: int, y: int|
            0 <= x < a.presets.len() && 0 <= y < a.presets.len() && x != y implies #[trigger] a.presets[x].name
            != #[trigger] a.presets[y].name by {
            assert(a.presets[x].name == st.presets[x].name);
            assert(a.presets[y].name == st.presets[y].name);
        }
    }
}

/// Capturing the settings and applying the capture changes nothing.
pub proof fn lemma_apply_capture(st: SettingsModel, name: Seq<char>)
    ensures
        st.with_values_of(st.capture(name)) == st,
{
    assert(st.with_values_of(st.capture(name)) =~= st);
}

/// Applying a preset and capturing under its name gives the preset back.
pub proof fn lemma_capture_apply(st: SettingsModel, p: PresetModel)
    ensures
        st.with_values_of(p).capture(p.name) == p,
{
    assert(st.with_values_of(p).capture(p.name) =~= p);
}

/// At start-up, the current preset, if any, is a saved preset.
pub proof fn lemma_start_current_saved(st: SettingsModel)
    ensures
        crate::config::forget_unsaved_current(st).current_is_saved(),
{
}

/// Numbered names differ: `Preset <a>` and `Preset <b>` are one name only
/// when `a == b`.
proof fn lemma_numbered_names_differ(a: nat, b: nat)
    requires
        "Preset "@ + decimal(a) == "Preset "@ + decimal(b),
    ensures
        a == b,
{
    let pre = "Preset "@;
    let x = pre + decimal(a);
    let y = pre + decimal(b);
    assert(decimal(a) =~= x.subrange(pre.len() as int, x.len() as int));
    assert(decimal(b) =~= y.subrange(pre.len() as int, y.len() as int));
    lemma_parse_decimal(a);
    lemma_parse_decimal(b);
}

/// Unnamed saves number the presets: when preset `k` is named
/// `Preset <k + 1>` for every `k` (as unnamed saves from no presets leave
/// them) and the name field is blank, the "+" button adds one more preset,
/// named `Preset <n + 1>` for `n` presets and holding the current settings,
/// keeps the others, and makes it the current preset; so every preset `k`
/// is again named `Preset <k + 1>`.
pub proof fn lemma_unnamed_add_numbers(st: SettingsModel, typed: Seq<char>)
    requires
        sanitized_name(typed).len() == 0,
        forall|k: int|
            0 <= k < st.presets.len() ==> (#[trigger] st.presets[k]).name == "Preset "@ + decimal(
                (k + 1) as nat,
            ),
    ensures
        ({
            let n = st.presets.len();
            let a = after_add(st, new_preset_name_spec(typed, n as nat));
            &&& a.presets.len() == n + 1
            &&& a.presets.take(n as int) == st.presets
            &&& a.presets[n as int] == st.capture("Preset "@ + decimal((n + 1) as nat))
            &&& a.current_preset == Some("Preset "@ + decimal((n + 1) as nat))
            &&& forall|k: int|
                0 <= k < a.presets.len() ==> (#[trigger] a.presets[k]).name == "Preset "@ + decimal(
                    (k + 1) as nat,
                )
        }),
{
    let n = st.presets.len();
    let name = "Preset "@ + decimal((n + 1) as nat);
    assert(new_preset_name_spec(typed, n as nat) == name);
    let p = st.capture(name);
    if exists|i: int| 0 <= i < st.presets.len() && #[trigger] st.presets[i].name == p.name {
        let i = choose|i: int| 0 <= i < st.presets.len() && #[trigger] st.presets[i].name == p.name;
        lemma_numbered_names_differ((i + 1) as nat, (n + 1) as nat);
    }
    let a = after_add(st, name);
    assert(a.presets == st.presets.push(p));
    assert(a.presets.take(n as int) =~= st.presets);
}

proof fn lemma_name_chars_kept(s: Seq<char>, f: spec_fn(char) -> bool)
    ensures
        without_chars(s, f).len() <= s.len(),
        forall|k: int| 0 <= k < without_chars(s, f).len() ==> !f(#[trigger] without_chars(s, f)[k]),
        (forall|k: int| 0 <= k < s.len() ==> !f(#[trigger] s[k])) ==> without_chars(s, f) == s,
    decreases s.len(),
{
    if s.len() > 0 {
        let d = s.drop_last();
        lemma_name_chars_kept(d, f);
        if forall|k: int| 0 <= k < s.len() ==> !f(#[trigger] s[k]) {
            assert forall|k: int| 0 <= k < d.len() implies !f(#[trigger] d[k]) by {
                assert(d[k] == s[k]);
            }
            assert(!f(s[s.len() - 1]));
            assert(d.push(s.last()) =~= s);
        }
    }
}

/// A preset name is fit for its line in the configuration file: whatever was
/// typed, the name holds none of `=`, `,`, line feed and carriage return, and
/// has at most 24 characters; a typed name that already is such a name, with
/// no white space at either end, is kept as it is.
pub proof fn lemma_sanitized_name(typed: Seq<char>)
    ensures
        sanitized_name(typed).len() <= 24,
        forall|k: int|
            0 <= k < sanitized_name(typed).len() ==> {
                let c = #[trigger] sanitized_name(typed)[k];
                c != '=' && c != ',' && c != '\n' && c != '\r'
            },
        ((forall|k: int|
            0 <= k < typed.len() ==> {
                let c = #[trigger] typed[k];
                c != '=' && c != ',' && c != '\n' && c != '\r'
            }) && typed.len() <= 24 && (typed.len() > 0 ==> !is_white_space(typed[0])
            && !is_white_space(typed[typed.len() - 1]))) ==> sanitized_name(typed) == typed,
{
    let t = trim(typed);
    let f = |c: char| banned_in_name(c);
    lemma_name_chars_kept(t, f);
    let w = without_chars(t, f);
    assert(sanitized_name(typed) == take_at_most(w, NAME_MAX_CHARS as nat));
    assert forall|k: int| 0 <= k < sanitized_name(typed).len() implies !banned_in_name(
        #[trigger] sanitized_name(typed)[k],
    ) by {
        assert(sanitized_name(typed)[k] == w[k]);
    }
    if (forall|k: int|
        0 <= k < typed.len() ==> {
            let c = #[trigger] typed[k];
            c != '=' && c != ',' && c != '\n' && c != '\r'
        }) && typed.len() <= 24 && (typed.len() > 0 ==> !is_white_space(typed[0])
        && !is_white_space(typed[typed.len() - 1])) {
        lemma_trim_start(typed, 0);
        assert(typed.skip(0) =~= typed);
        lemma_trim_end(typed, typed.len() as int);
        assert(typed.take(typed.len() as int) =~= typed);
        assert(t == typed);
        assert(forall|k: int| 0 <= k < t.len() ==> !f(#[trigger] t[k]));
    }
}

} // verus!
