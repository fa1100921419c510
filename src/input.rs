use vstd::prelude::*;
use vstd::laws_eq::obeys_concrete_eq;
use crate::UNIT;
use crate::input_code::{AxisSign, InputCode};
use crate::events::{DeviceEvent, GamepadEvent, ScrollDelta, WindowEvent};
use crate::direction::{clamp_len, clamped};

verus! {

/// The state of one action: its intensity and whether the last update that
/// reached it pressed or released it.
#[derive(Clone, Copy, Debug, PartialEq, Eq, Structural)]
pub struct ActionRecord {
    pub value: u32,
    pub just_pressed: bool,
    pub just_released: bool,
}

/// The record of an action that no update has reached.
pub open spec fn idle() -> ActionRecord {
    ActionRecord { value: 0, just_pressed: false, just_released: false }
}

/// The record of `a` in `m`; an action without one is idle.
pub open spec fn record_in<F>(m: Map<F, ActionRecord>, a: F) -> ActionRecord {
    if m.contains_key(a) {
        m[a]
    } else {
        idle()
    }
}

/// How an update changes the intensity of the actions it reaches.
#[derive(Clone, Copy, Debug, PartialEq, Eq, Structural)]
pub enum Change {
    /// The intensity is replaced (keys, buttons, gamepads).
    Replace(u32),
    /// The intensity grows by an amount, up to `u32::MAX` (motion, scrolling).
    Grow(u64),
}

pub open spec fn changed_value(old: u32, c: Change) -> u32 {
    match c {
        Change::Replace(v) => v,
        Change::Grow(d) => if old + d > u32::MAX {
            u32::MAX
        } else {
            (old + d) as u32
        },
    }
}

/// The record that one pass of an update gives `a`: the edges are taken
/// against the record as it stood just before.
pub open spec fn next_record(r: ActionRecord, c: Change, sens: u32) -> ActionRecord {
    let was = r.value >= sens;
    let v = changed_value(r.value, c);
    let now = v >= sens;
    ActionRecord { value: v, just_pressed: now && !was, just_released: !now && was }
}

pub open spec fn step<F>(m: Map<F, ActionRecord>, a: F, c: Change, sens: u32) -> Map<
    F,
    ActionRecord,
> {
    m.insert(a, next_record(record_in(m, a), c, sens))
}

/// One pass for each bound action, in order.
pub open spec fn apply_all<F>(m: Map<F, ActionRecord>, actions: Seq<F>, c: Change, sens: u32) -> Map<
    F,
    ActionRecord,
>
    decreases actions.len(),
{
    if actions.len() == 0 {
        m
    } else {
        step(apply_all(m, actions.drop_last(), c, sens), actions.last(), c, sens)
    }
}

/// Whether some pass of the update left the action it reached pressed.
pub open spec fn some_pass_pressed<F>(
    m: Map<F, ActionRecord>,
    actions: Seq<F>,
    c: Change,
    sens: u32,
) -> bool {
    exists|i: int|
        0 <= i < actions.len() && #[trigger] record_in(
            apply_all(m, actions.take(i + 1), c, sens),
            actions[i],
        ).value >= sens
}

/// The actions that `new` binds to `code`: for each pair in order, its action
/// once for every time `code` appears in its list.
pub open spec fn bind_pairs<F>(pairs: Seq<(F, Vec<InputCode>)>, code: InputCode) -> Seq<F>
    decreases pairs.len(),
{
    if pairs.len() == 0 {
        Seq::empty()
    } else {
        bind_pairs(pairs.drop_last(), code) + bind_codes(pairs.last().0, pairs.last().1@, code)
    }
}

pub open spec fn bind_codes<F>(a: F, codes: Seq<InputCode>, code: InputCode) -> Seq<F>
    decreases codes.len(),
{
    if codes.len() == 0 {
        Seq::empty()
    } else if codes.last() == code {
        bind_codes(a, codes.drop_last(), code).push(a)
    } else {
        bind_codes(a, codes.drop_last(), code)
    }
}


/// An update leaves the record of an action it does not reach as it was.
pub proof fn lemma_apply_all_untouched<F>(
    m: Map<F, ActionRecord>,
    s: Seq<F>,
    c: Change,
    sens: u32,
    a: F,
)
    requires
        !s.contains(a),
    ensures
        record_in(apply_all(m, s, c, sens), a) == record_in(m, a),
    decreases s.len(),
{
    if s.len() > 0 {
        assert(s.last() != a) by {
            assert(s[s.len() - 1] == s.last());
        }
        assert forall|i: int| 0 <= i < s.drop_last().len() implies s.drop_last()[i] != a by {
            assert(s[i] != a);
        }
        lemma_apply_all_untouched(m, s.drop_last(), c, sens, a);
    }
}

/// A replacing update leaves every action it reaches at the new intensity.
pub proof fn lemma_replace_value<F>(m: Map<F, ActionRecord>, s: Seq<F>, v: u32, sens: u32, a: F)
    requires
        s.contains(a),
    ensures
        record_in(apply_all(m, s, Change::Replace(v), sens), a).value == v,
    decreases s.len(),
{
    if s.last() != a {
        let i = choose|i: int| 0 <= i < s.len() && s[i] == a;
        assert(i < s.len() - 1);
        assert(s.drop_last()[i] == a);
        lemma_replace_value(m, s.drop_last(), v, sens, a);
    }
}

/// Where an update reaches an action exactly once, that action's record is
/// one pass applied to its record before the update.
pub proof fn lemma_single_pass<F>(
    m: Map<F, ActionRecord>,
    s: Seq<F>,
    c: Change,
    sens: u32,
    a: F,
    i: int,
)
    requires
        0 <= i < s.len(),
        s[i] == a,
        forall|j: int| 0 <= j < s.len() && j != i ==> s[j] != a,
    ensures
        record_in(apply_all(m, s, c, sens), a) == next_record(record_in(m, a), c, sens),
    decreases s.len(),
{
    if i == s.len() - 1 {
        assert forall|j: int| 0 <= j < s.drop_last().len() implies s.drop_last()[j] != a by {
            assert(s[j] != a);
        }
        lemma_apply_all_untouched(m, s.drop_last(), c, sens, a);
    } else {
        assert(s.last() != a);
        assert forall|j: int| 0 <= j < s.drop_last().len() && j != i implies s.drop_last()[j]
            != a by {
            assert(s[j] != a);
        }
        lemma_single_pass(m, s.drop_last(), c, sens, a, i);
    }
}

impl InputMap<()> {
    /// A map without actions; events still update the cursor, the typed
    /// text and the recently pressed code.
    pub fn empty() -> (r: InputMap<()>)
        ensures
            r.wf(),
            r.binds@.len() == 0,
            r.records@.len() == 0,
            r.has_default_setup(),
    {
        let r = InputMap::<()>::blank();
        proof {
            assert(r.records() =~= Map::<(), ActionRecord>::empty());
        }
        r
    }
}

/// The default multiplier of mouse motion (0.1).
pub const DEFAULT_MOUSE_SCALE: u32 = 100;

/// The default scrolling sensitivity (0.1).
pub const DEFAULT_SCROLL_SCALE: u32 = 100;

/// The default intensity from which an action counts as pressed (0.5).
pub const DEFAULT_PRESS_SENSITIVITY: u32 = 500;

/// The part of a raw delta `d` that points the positive way, times `scale`,
/// in thousandths, rounded down.
pub open spec fn positive_part(d: int, scale: int) -> int {
    if d > 0 {
        d * scale / (UNIT as int)
    } else {
        0
    }
}

fn positive_part_of(d: i64, scale: u32) -> (r: u64)
    requires
        -0x8000_0000 <= d <= 0x8000_0000,
    ensures
        r == positive_part(d as int, scale as int),
{
    if d > 0 {
        assert((d as u64) * (scale as u64) <= 0x8000_0000u64 * 0xffff_ffffu64) by (nonlinear_arith)
            requires 0 < d <= 0x8000_0000, scale <= 0xffff_ffffu32;
        (d as u64) * (scale as u64) / (UNIT as u64)
    } else {
        0
    }
}

/// Every record with its edges cleared and its intensity kept.
pub open spec fn cleared<F>(m: Map<F, ActionRecord>) -> Map<F, ActionRecord> {
    m.map_values(|r: ActionRecord| ActionRecord { value: r.value, just_pressed: false, just_released: false })
}

/// The text view of an optional string.
pub open spec fn text_view(t: Option<String>) -> Option<Seq<char>> {
    match t {
        Some(s) => Some(s@),
        None => None,
    }
}

/// The text typed this frame after a key event that typed `t`: appended to
/// what was typed before, or nothing where the key typed nothing.
pub open spec fn typed_after(before: Option<String>, t: Option<String>) -> Option<Seq<char>> {
    match t {
        Some(n) => match before {
            Some(s) => Some(s@ + n@),
            None => Some(n@),
        },
        None => None,
    }
}

/// The intensity a key or button state stands for.
pub open spec fn press_value(pressed: bool) -> u32 {
    if pressed {
        UNIT
    } else {
        0
    }
}

/// What a frame observes: the action records and the last code that pressed
/// something.
#[verifier::reject_recursive_types(F)]
pub struct Status<F> {
    pub records: Map<F, ActionRecord>,
    pub recent: Option<InputCode>,
}

/// Translates raw input into the state of application-defined actions of type
/// `F`. Feed it events, read the actions, then call [`InputMap::init`] once
/// per frame.
pub struct InputMap<F> {
    /// The actions bound to each code; each code appears once, with at least
    /// one action.
    pub binds: Vec<(InputCode, Vec<F>)>,
    /// The record of each action that some update reached; each action once.
    pub records: Vec<(F, ActionRecord)>,
    /// The cursor position, in thousandths of a pixel.
    pub mouse_pos: (i64, i64),
    /// The last code that pressed something, bound or not; for rebinding.
    pub recently_pressed: Option<InputCode>,
    /// The text typed since the last frame.
    pub text_typed: Option<String>,
    /// Multiplies raw mouse motion, in thousandths.
    pub mouse_scale: u32,
    /// Multiplies scrolling, in thousandths.
    pub scroll_scale: u32,
    /// The intensity from which an action counts as pressed. Above `UNIT`
    /// ordinary buttons can never press.
    pub press_sensitivity: u32,
}

impl<F: Copy + PartialEq> InputMap<F> {
    /// The binding table as codes and lists of actions.
    pub open spec fn bind_map(&self) -> Map<InputCode, Seq<F>> {
        Map::new(
            |c: InputCode| exists|i: int| 0 <= i < self.binds@.len() && self.binds@[i].0 == c,
            |c: InputCode|
                self.binds@[choose|i: int| 0 <= i < self.binds@.len() && self.binds@[i].0 == c].1@,
        )
    }

    /// The actions bound to `code`, in the order they were bound.
    pub open spec fn bound(&self, code: InputCode) -> Seq<F> {
        if self.bind_map().contains_key(code) {
            self.bind_map()[code]
        } else {
            Seq::empty()
        }
    }

    /// Whether some code has `a` bound to it.
    pub open spec fn is_bound(&self, a: F) -> bool {
        exists|c: InputCode| #[trigger] self.bound(c).contains(a)
    }

    /// The record of each action that some update reached.
    pub open spec fn records(&self) -> Map<F, ActionRecord> {
        Map::new(
            |a: F| exists|i: int| 0 <= i < self.records@.len() && self.records@[i].0 == a,
            |a: F|
                self.records@[choose|i: int|
                    0 <= i < self.records@.len() && self.records@[i].0 == a].1,
        )
    }

    pub open spec fn record(&self, a: F) -> ActionRecord {
        record_in(self.records(), a)
    }

    pub open spec fn status(&self) -> Status<F> {
        Status { records: self.records(), recent: self.recently_pressed }
    }

    /// Well-formedness: the tables hold each key once, every bound code has an
    /// action, only bound actions have records, no record is pressed and
    /// released at once, and once an action is bound, actions compare by
    /// plain equality.
    pub open spec fn wf(&self) -> bool {
        &&& self.binds@.len() > 0 ==> obeys_concrete_eq::<F>()
        &&& forall|i: int, j: int|
            0 <= i < j < self.binds@.len() ==> self.binds@[i].0 != self.binds@[j].0
        &&& forall|i: int| 0 <= i < self.binds@.len() ==> self.binds@[i].1@.len() > 0
        &&& forall|i: int, j: int|
            0 <= i < j < self.records@.len() ==> self.records@[i].0 != self.records@[j].0
        &&& forall|a: F| #[trigger] self.records().contains_key(a) ==> self.is_bound(a)
        &&& forall|a: F|
            #[trigger] self.records().contains_key(a) ==> !(self.records()[a].just_pressed
                && self.records()[a].just_released)
    }

    proof fn lemma_bind_at(&self, i: int)
        requires
            forall|x: int, y: int|
                0 <= x < y < self.binds@.len() ==> self.binds@[x].0 != self.binds@[y].0,
            0 <= i < self.binds@.len(),
        ensures
            self.bind_map().contains_key(self.binds@[i].0),
            self.bound(self.binds@[i].0) == self.binds@[i].1@,
    {
        let c = self.binds@[i].0;
        assert(self.bind_map().contains_key(c));
        let j = choose|j: int| 0 <= j < self.binds@.len() && self.binds@[j].0 == c;
        assert(i == j);
    }

    /// Well-formedness depends on the two tables alone.
    proof fn lemma_wf_tables(&self, other: &Self)
        requires
            other.wf(),
            self.binds@ == other.binds@,
            self.records@ == other.records@,
        ensures
            self.wf(),
            self.records() == other.records(),
            forall|c: InputCode| #[trigger] self.bound(c) == other.bound(c),
    {
        assert(self.bind_map() =~= other.bind_map());
        assert(self.records() =~= other.records());
        assert forall|a: F| #[trigger] self.records().contains_key(a) implies self.is_bound(a) by {
            assert(other.is_bound(a));
            let c = choose|c: InputCode| #[trigger] other.bound(c).contains(a);
            assert(self.bound(c).contains(a));
        }
    }

    proof fn lemma_record_at(&self, i: int)
        requires
            forall|x: int, y: int|
                0 <= x < y < self.records@.len() ==> self.records@[x].0 != self.records@[y].0,
            0 <= i < self.records@.len(),
        ensures
            self.records().contains_key(self.records@[i].0),
            self.records()[self.records@[i].0] == self.records@[i].1,
    {
        let a = self.records@[i].0;
        assert(self.records().contains_key(a));
        let j = choose|j: int| 0 <= j < self.records@.len() && self.records@[j].0 == a;
        assert(i == j);
    }

    /// The settings that updates leave alone.
    pub open spec fn keeps_setup(&self, other: &Self) -> bool {
        &&& self.binds@ == other.binds@
        &&& self.mouse_scale == other.mouse_scale
        &&& self.scroll_scale == other.scroll_scale
        &&& self.press_sensitivity == other.press_sensitivity
    }

    /// A replacing update of `code` to intensity `val`: every bound action
    /// gets a pass, and a pressing value marks `code` as recently pressed,
    /// bound or not.
    pub open spec fn set_step(&self, st: Status<F>, code: InputCode, val: u32) -> Status<F> {
        Status {
            records: apply_all(
                st.records,
                self.bound(code),
                Change::Replace(val),
                self.press_sensitivity,
            ),
            recent: if val >= self.press_sensitivity {
                Some(code)
            } else {
                st.recent
            },
        }
    }

    /// An accumulating update of `code` by `d`: every bound action gets a
    /// pass, and `code` is marked as recently pressed where a pass pressed.
    pub open spec fn grow_step(&self, st: Status<F>, code: InputCode, d: u64) -> Status<F> {
        Status {
            records: apply_all(st.records, self.bound(code), Change::Grow(d), self.press_sensitivity),
            recent: if some_pass_pressed(
                st.records,
                self.bound(code),
                Change::Grow(d),
                self.press_sensitivity,
            ) {
                Some(code)
            } else {
                st.recent
            },
        }
    }

    /// The frame-start settings: cursor at the origin, nothing typed or
    /// pressed, default scales and threshold.
    pub open spec fn has_default_setup(&self) -> bool {
        &&& self.mouse_pos == (0i64, 0i64)
        &&& self.recently_pressed == None::<InputCode>
        &&& self.text_typed == None::<String>
        &&& self.mouse_scale == DEFAULT_MOUSE_SCALE
        &&& self.scroll_scale == DEFAULT_SCROLL_SCALE
        &&& self.press_sensitivity == DEFAULT_PRESS_SENSITIVITY
    }

    /// Raw mouse motion `(dx, dy)`: the four half-axis codes accumulate the
    /// scaled motion, x before y, positive before negative.
    pub open spec fn motion_step(&self, st: Status<F>, dx: int, dy: int) -> Status<F> {
        let s = self.mouse_scale as int;
        let s1 = self.grow_step(st, InputCode::MouseMoveX(AxisSign::Pos), positive_part(dx, s) as u64);
        let s2 = self.grow_step(s1, InputCode::MouseMoveX(AxisSign::Neg), positive_part(-dx, s) as u64);
        let s3 = self.grow_step(s2, InputCode::MouseMoveY(AxisSign::Pos), positive_part(dy, s) as u64);
        self.grow_step(s3, InputCode::MouseMoveY(AxisSign::Neg), positive_part(-dy, s) as u64)
    }

    /// Scrolling by `(x, y)`: vertical before horizontal, positive before
    /// negative, scaled by the scroll scale.
    pub open spec fn scroll_step(&self, st: Status<F>, x: int, y: int) -> Status<F> {
        let s = self.scroll_scale as int;
        let s1 = self.grow_step(st, InputCode::MouseScroll(AxisSign::Pos), positive_part(y, s) as u64);
        let s2 = self.grow_step(s1, InputCode::MouseScroll(AxisSign::Neg), positive_part(-y, s) as u64);
        let s3 = self.grow_step(s2, InputCode::MouseScrollX(AxisSign::Pos), positive_part(x, s) as u64);
        self.grow_step(s3, InputCode::MouseScrollX(AxisSign::Neg), positive_part(-x, s) as u64)
    }

    pub open spec fn device_step(&self, st: Status<F>, ev: DeviceEvent) -> Status<F> {
        match ev {
            DeviceEvent::MouseMotion { dx, dy } => self.motion_step(st, dx as int, dy as int),
            DeviceEvent::MouseWheel { delta } => match delta {
                ScrollDelta::Lines(x, y) => self.scroll_step(st, x as int, y as int),
                ScrollDelta::Pixels(x, y) => self.scroll_step(st, x as int, y as int),
            },
            DeviceEvent::Other => st,
        }
    }

    pub open spec fn window_step(&self, st: Status<F>, ev: WindowEvent) -> Status<F> {
        match ev {
            WindowEvent::MouseInput { pressed, button } => self.set_step(
                st,
                InputCode::Mouse(button),
                press_value(pressed),
            ),
            WindowEvent::KeyboardInput { key, text, pressed } => self.set_step(
                st,
                key,
                press_value(pressed),
            ),
            _ => st,
        }
    }

    /// A gamepad event updates the code of any gamepad and the code scoped to
    /// the event's gamepad; an axis position splits into its two halves.
    pub open spec fn gamepad_step(&self, st: Status<F>, ev: GamepadEvent) -> Status<F> {
        match ev {
            GamepadEvent::ButtonPressed { button, id } => self.set_step(
                self.set_step(st, InputCode::GamepadButtonOn(button, id), UNIT),
                InputCode::GamepadButton(button),
                UNIT,
            ),
            GamepadEvent::ButtonReleased { button, id } => self.set_step(
                self.set_step(st, InputCode::GamepadButtonOn(button, id), 0),
                InputCode::GamepadButton(button),
                0,
            ),
            GamepadEvent::ButtonChanged { button, value, id } => self.set_step(
                self.set_step(st, InputCode::GamepadButton(button), value),
                InputCode::GamepadButtonOn(button, id),
                value,
            ),
            GamepadEvent::AxisChanged { axis, position, id } => {
                let pos = if position > 0 { position as u32 } else { 0u32 };
                let neg = if position < 0 { (-position) as u32 } else { 0u32 };
                let s1 = self.set_step(st, InputCode::GamepadAxis(axis, AxisSign::Pos), pos);
                let s2 = self.set_step(s1, InputCode::GamepadAxis(axis, AxisSign::Neg), neg);
                let s3 = self.set_step(s2, InputCode::GamepadAxisOn(axis, AxisSign::Pos, id), pos);
                self.set_step(s3, InputCode::GamepadAxisOn(axis, AxisSign::Neg, id), neg)
            },
            GamepadEvent::Other => st,
        }
    }

    /// The eight accumulating half-axis codes set back to zero.
    pub open spec fn zero_accumulated(&self, st: Status<F>) -> Status<F> {
        let s1 = self.set_step(st, InputCode::MouseMoveX(AxisSign::Pos), 0);
        let s2 = self.set_step(s1, InputCode::MouseMoveX(AxisSign::Neg), 0);
        let s3 = self.set_step(s2, InputCode::MouseMoveY(AxisSign::Pos), 0);
        let s4 = self.set_step(s3, InputCode::MouseMoveY(AxisSign::Neg), 0);
        let s5 = self.set_step(s4, InputCode::MouseScroll(AxisSign::Pos), 0);
        let s6 = self.set_step(s5, InputCode::MouseScroll(AxisSign::Neg), 0);
        let s7 = self.set_step(s6, InputCode::MouseScrollX(AxisSign::Pos), 0);
        self.set_step(s7, InputCode::MouseScrollX(AxisSign::Neg), 0)
    }

    /// The frame reset: accumulated axes zeroed, then every edge cleared and
    /// nothing recently pressed.
    pub open spec fn reset_step(&self, st: Status<F>) -> Status<F> {
        Status { records: cleared(self.zero_accumulated(st).records), recent: None }
    }

    /// Nothing but the action records differs from `other`.
    pub open spec fn only_records_changed(&self, other: &Self) -> bool {
        &&& self.binds@ == other.binds@
        &&& self.mouse_pos == other.mouse_pos
        &&& self.recently_pressed == other.recently_pressed
        &&& self.text_typed == other.text_typed
        &&& self.mouse_scale == other.mouse_scale
        &&& self.scroll_scale == other.scroll_scale
        &&& self.press_sensitivity == other.press_sensitivity
    }

    fn same_action(a: &F, b: &F) -> (r: bool)
        requires
            obeys_concrete_eq::<F>(),
        ensures
            r == (*a == *b),
    {
        proof {
            reveal(obeys_concrete_eq);
        }
        a.eq(b)
    }

    fn find_bind(&self, code: &InputCode) -> (r: Option<usize>)
        requires
            self.wf(),
        ensures
            match r {
                Some(i) => i < self.binds@.len() && self.binds@[i as int].0 == *code,
                None => self.bound(*code).len() == 0 && !self.bind_map().contains_key(*code),
            },
    {
        let mut i: usize = 0;
        while i < self.binds.len()
            invariant
                self.wf(),
                i <= self.binds@.len(),
                forall|j: int| 0 <= j < i ==> self.binds@[j].0 != *code,
            decreases self.binds@.len() - i,
        {
            if self.binds[i].0 == *code {
                return Some(i);
            }
            i += 1;
        }
        None
    }

    /// A record exists only for a bound action, so the equality law holds.
    proof fn lemma_law_from_record(&self, i: int)
        requires
            self.wf(),
            0 <= i < self.records@.len(),
        ensures
            obeys_concrete_eq::<F>(),
    {
        self.lemma_record_at(i);
        let a = self.records@[i].0;
        assert(self.is_bound(a));
        let c = choose|c: InputCode| #[trigger] self.bound(c).contains(a);
        assert(self.bind_map().contains_key(c));
    }

    fn find_record(&self, a: &F) -> (r: Option<usize>)
        requires
            self.wf(),
        ensures
            match r {
                Some(i) => i < self.records@.len() && self.records@[i as int].0 == *a,
                None => !self.records().contains_key(*a),
            },
    {
        let mut i: usize = 0;
        while i < self.records.len()
            invariant
                self.wf(),
                i <= self.records@.len(),
                forall|j: int| 0 <= j < i ==> self.records@[j].0 != *a,
            decreases self.records@.len() - i,
        {
            proof {
                self.lemma_law_from_record(i as int);
            }
            if Self::same_action(&self.records[i].0, a) {
                return Some(i);
            }
            i += 1;
        }
        None
    }

    fn current(&self, a: &F) -> (r: ActionRecord)
        requires
            self.wf(),
        ensures
            r == self.record(*a),
    {
        match self.find_record(a) {
            Some(i) => {
                proof {
                    self.lemma_record_at(i as int);
                }
                self.records[i].1
            },
            None => ActionRecord { value: 0, just_pressed: false, just_released: false },
        }
    }

    fn put_record(&mut self, a: F, rec: ActionRecord)
        requires
            old(self).wf(),
            old(self).is_bound(a),
            !(rec.just_pressed && rec.just_released),
        ensures
            final(self).wf(),
            final(self).only_records_changed(old(self)),
            final(self).records() == old(self).records().insert(a, rec),
    {
        let ghost before = *self;
        match self.find_record(&a) {
            Some(i) => {
                self.records.set(i, (a, rec));
                proof {
                    assert forall|x: int, y: int|
                        0 <= x < y < self.records@.len() implies self.records@[x].0
                            != self.records@[y].0 by {
                        assert(before.records@[x].0 != before.records@[y].0);
                    }
                    assert(self.bind_map() == before.bind_map());
                    assert forall|k: F| #[trigger] self.records().contains_key(k) <==> before.records().contains_key(k) by {
                        if self.records().contains_key(k) {
                            let j = choose|j: int| 0 <= j < self.records@.len() && self.records@[j].0 == k;
                            assert(before.records@[j].0 == k);
                        }
                        if before.records().contains_key(k) {
                            let j = choose|j: int| 0 <= j < before.records@.len() && before.records@[j].0 == k;
                            assert(self.records@[j].0 == k);
                        }
                    }
                    assert forall|k: F| #[trigger] self.records().contains_key(k) implies self.records()[k]
                        == before.records().insert(a, rec)[k] by {
                        let j = choose|j: int| 0 <= j < self.records@.len() && self.records@[j].0 == k;
                        self.lemma_record_at(j);
                        if j != i {
                            before.lemma_record_at(j);
                        }
                    }
                    assert(self.records() =~= before.records().insert(a, rec));
                }
            },
            None => {
                self.records.push((a, rec));
                proof {
                    let n = before.records@.len() as int;
                    assert forall|x: int, y: int|
                        0 <= x < y < self.records@.len() implies self.records@[x].0
                            != self.records@[y].0 by {
                        if y < n {
                            assert(before.records@[x].0 != before.records@[y].0);
                        } else {
                            assert(before.records@[x].0 == self.records@[x].0);
                            assert(!before.records().contains_key(a));
                        }
                    }
                    assert(self.bind_map() == before.bind_map());
                    assert forall|k: F| #[trigger] self.records().contains_key(k) <==> before.records().insert(a, rec).contains_key(k) by {
                        if self.records().contains_key(k) && k != a {
                            let j = choose|j: int| 0 <= j < self.records@.len() && self.records@[j].0 == k;
                            assert(before.records@[j].0 == k);
                        }
                        if before.records().contains_key(k) {
                            let j = choose|j: int| 0 <= j < before.records@.len() && before.records@[j].0 == k;
                            assert(self.records@[j].0 == k);
                        }
                        if k == a {
                            assert(self.records@[n].0 == a);
                        }
                    }
                    assert forall|k: F| #[trigger] self.records().contains_key(k) implies self.records()[k]
                        == before.records().insert(a, rec)[k] by {
                        let j = choose|j: int| 0 <= j < self.records@.len() && self.records@[j].0 == k;
                        self.lemma_record_at(j);
                        if j != n {
                            before.lemma_record_at(j);
                        }
                    }
                    assert(self.records() =~= before.records().insert(a, rec));
                }
            },
        }
        proof {
            assert forall|k: F| #[trigger] self.records().contains_key(k) implies self.is_bound(k) by {
                if k != a {
                    assert(before.records().contains_key(k));
                    assert(before.is_bound(k));
                    let c = choose|c: InputCode| #[trigger] before.bound(c).contains(k);
                    assert(self.bound(c).contains(k));
                } else {
                    let c = choose|c: InputCode| #[trigger] before.bound(c).contains(k);
                    assert(self.bound(c).contains(k));
                }
            }
        }
    }

    /// One pass for each action bound to the code at `i` of the table.
    fn run_passes(&mut self, i: usize, c: Change) -> (any: bool)
        requires
            old(self).wf(),
            i < old(self).binds@.len(),
        ensures
            final(self).wf(),
            final(self).only_records_changed(old(self)),
            final(self).records() == apply_all(
                old(self).records(),
                old(self).binds@[i as int].1@,
                c,
                old(self).press_sensitivity,
            ),
            any == some_pass_pressed(
                old(self).records(),
                old(self).binds@[i as int].1@,
                c,
                old(self).press_sensitivity,
            ),
    {
        let ghost before = *self;
        let ghost actions = self.binds@[i as int].1@;
        let ghost m0 = self.records();
        let sens = self.press_sensitivity;
        proof {
            self.lemma_bind_at(i as int);
        }
        let n = self.binds[i].1.len();
        let mut k: usize = 0;
        let mut any = false;
        assert(actions.take(0) =~= Seq::<F>::empty());
        while k < n
            invariant
                self.wf(),
                self.only_records_changed(&before),
                i < self.binds@.len(),
                actions == self.binds@[i as int].1@,
                n == actions.len(),
                self.bound(self.binds@[i as int].0) == actions,
                sens == self.press_sensitivity,
                k <= n,
                self.records() == apply_all(m0, actions.take(k as int), c, sens),
                any == exists|j: int|
                    0 <= j < k && #[trigger] record_in(
                        apply_all(m0, actions.take(j + 1), c, sens),
                        actions[j],
                    ).value >= sens,
            decreases n - k,
        {
            let a: F = self.binds[i].1[k];
            let cur = self.current(&a);
            let v: u32 = match c {
                Change::Replace(v) => v,
                Change::Grow(d) => if d >= (u32::MAX - cur.value) as u64 {
                    u32::MAX
                } else {
                    cur.value + d as u32
                },
            };
            let was = cur.value >= sens;
            let now = v >= sens;
            let rec = ActionRecord { value: v, just_pressed: now && !was, just_released: !now && was };
            proof {
                assert(self.bound(self.binds@[i as int].0).contains(a)) by {
                    assert(actions[k as int] == a);
                }
                assert(actions.take(k as int + 1).drop_last() =~= actions.take(k as int));
                assert(rec == next_record(cur, c, sens));
            }
            self.put_record(a, rec);
            proof {
                assert(actions.take(k as int + 1).last() == a);
                assert(self.records() == apply_all(m0, actions.take(k as int + 1), c, sens));
                assert(record_in(apply_all(m0, actions.take(k as int + 1), c, sens), actions[k as int]) == rec);
            }
            let ghost old_any = any;
            if now {
                any = true;
            }
            k += 1;
            proof {
                if exists|j: int|
                    0 <= j < k && #[trigger] record_in(
                        apply_all(m0, actions.take(j + 1), c, sens),
                        actions[j],
                    ).value >= sens {
                    let j = choose|j: int|
                        0 <= j < k && #[trigger] record_in(
                            apply_all(m0, actions.take(j + 1), c, sens),
                            actions[j],
                        ).value >= sens;
                    if j < k - 1 {
                        assert(old_any);
                    }
                }
                assert(rec.value == v);
                assert(now ==> record_in(apply_all(m0, actions.take((k - 1) + 1), c, sens), actions[k - 1]).value >= sens);
                assert(!now ==> !(record_in(apply_all(m0, actions.take((k - 1) + 1), c, sens), actions[k - 1]).value >= sens));
                if old_any {
                    let j = choose|j: int|
                        0 <= j < k - 1 && #[trigger] record_in(
                            apply_all(m0, actions.take(j + 1), c, sens),
                            actions[j],
                        ).value >= sens;
                    assert(record_in(apply_all(m0, actions.take(j + 1), c, sens), actions[j]).value >= sens);
                }
            }
        }
        assert(actions.take(n as int) =~= actions);
        any
    }

    /// Sets the intensity of `code` to `val` for every action bound to it, in
    /// order, each pass taking its edges against the record just before it; a
    /// pressing value marks `code` as recently pressed, bound or not.
    pub fn update_val(&mut self, code: InputCode, val: u32)
        requires
            old(self).wf(),
        ensures
            final(self).wf(),
            final(self).keeps_setup(old(self)),
            final(self).mouse_pos == old(self).mouse_pos,
            final(self).text_typed == old(self).text_typed,
            final(self).status() == old(self).set_step(old(self).status(), code, val),
    {
        if val >= self.press_sensitivity {
            self.recently_pressed = Some(code);
        }
        proof {
            self.lemma_wf_tables(old(self));
        }
        match self.find_bind(&code) {
            Some(i) => {
                proof {
                    self.lemma_bind_at(i as int);
                }
                self.run_passes(i, Change::Replace(val));
            },
            None => {},
        }
    }

    /// Adds `d` to the intensity of `code` for every action bound to it.
    fn modify_val(&mut self, code: InputCode, d: u64)
        requires
            old(self).wf(),
        ensures
            final(self).wf(),
            final(self).keeps_setup(old(self)),
            final(self).mouse_pos == old(self).mouse_pos,
            final(self).text_typed == old(self).text_typed,
            final(self).status() == old(self).grow_step(old(self).status(), code, d),
    {
        match self.find_bind(&code) {
            Some(i) => {
                proof {
                    self.lemma_bind_at(i as int);
                }
                let any = self.run_passes(i, Change::Grow(d));
                let ghost mid = *self;
                if any {
                    self.recently_pressed = Some(code);
                }
                proof {
                    self.lemma_wf_tables(&mid);
                    assert(self.records() == apply_all(old(self).records(), old(self).bound(code), Change::Grow(d), self.press_sensitivity));
                }
            },
            None => {
                proof {
                    let e = old(self).bound(code);
                    assert(e.len() == 0);
                    assert(!some_pass_pressed(old(self).records(), e, Change::Grow(d), self.press_sensitivity));
                }
            },
        }
    }

    /// Appends `action` to the actions bound to `code`. Binding an action
    /// twice to one code gives it two passes per update.
    pub fn bind(&mut self, code: InputCode, action: F)
        requires
            old(self).wf(),
            obeys_concrete_eq::<F>(),
        ensures
            final(self).wf(),
            final(self).bound(code) == old(self).bound(code).push(action),
            forall|c: InputCode| c != code ==> #[trigger] final(self).bound(c) == old(self).bound(c),
            final(self).records@ == old(self).records@,
            final(self).records() == old(self).records(),
            final(self).mouse_pos == old(self).mouse_pos,
            final(self).recently_pressed == old(self).recently_pressed,
            final(self).text_typed == old(self).text_typed,
            final(self).mouse_scale == old(self).mouse_scale,
            final(self).scroll_scale == old(self).scroll_scale,
            final(self).press_sensitivity == old(self).press_sensitivity,
    {
        let ghost before = *self;
        let ghost n = self.binds@.len() as int;
        let found = self.find_bind(&code);
        let ghost at: int = match found {
            Some(i) => i as int,
            None => n,
        };
        match found {
            Some(i) => {
                proof {
                    self.lemma_bind_at(i as int);
                }
                self.binds[i].1.push(action);
            },
            None => {
                let mut list: Vec<F> = Vec::new();
                list.push(action);
                self.binds.push((code, list));
            },
        }
        proof {
            assert(self.binds@[at].0 == code);
            assert(self.binds@[at].1@ == before.bound(code).push(action)) by {
                if at == n {
                    assert(before.bound(code) =~= Seq::<F>::empty());
                    assert(self.binds@[at].1@ =~= seq![action]);
                }
            }
            assert forall|x: int, y: int|
                0 <= x < y < self.binds@.len() implies self.binds@[x].0 != self.binds@[y].0 by {
                if y < n {
                    assert(before.binds@[x].0 != before.binds@[y].0);
                } else {
                    assert(self.binds@[x].0 == before.binds@[x].0);
                    assert(!before.bind_map().contains_key(code));
                }
            }
            assert forall|j: int| 0 <= j < self.binds@.len() && j != at implies self.binds@[j]
                == before.binds@[j] by {}
            self.lemma_bind_at(at);
            assert forall|c: InputCode| c != code implies #[trigger] self.bound(c) == before.bound(c) by {
                if self.bind_map().contains_key(c) {
                    let j = choose|j: int| 0 <= j < self.binds@.len() && self.binds@[j].0 == c;
                    self.lemma_bind_at(j);
                    before.lemma_bind_at(j);
                }
                if before.bind_map().contains_key(c) {
                    let j = choose|j: int| 0 <= j < before.binds@.len() && before.binds@[j].0 == c;
                    before.lemma_bind_at(j);
                    assert(self.binds@[j] == before.binds@[j]);
                    self.lemma_bind_at(j);
                }
            }
            assert(self.records() == before.records());
            assert forall|a: F| #[trigger] self.records().contains_key(a) implies self.is_bound(a) by {
                assert(before.is_bound(a));
                let c = choose|c: InputCode| #[trigger] before.bound(c).contains(a);
                if c == code {
                    let k = choose|k: int| 0 <= k < before.bound(c).len() && before.bound(c)[k] == a;
                    assert(self.bound(c)[k] == a);
                }
                assert(self.bound(c).contains(a));
            }
        }
    }

    /// The actions bound to `code`, if any.
    pub fn lookup(&self, code: &InputCode) -> (r: Option<&Vec<F>>)
        requires
            self.wf(),
        ensures
            match r {
                Some(v) => v@ == self.bound(*code) && v@.len() > 0,
                None => self.bound(*code).len() == 0,
            },
    {
        match self.find_bind(code) {
            Some(i) => {
                proof {
                    self.lemma_bind_at(i as int);
                }
                Some(&self.binds[i].1)
            },
            None => None,
        }
    }

    fn blank() -> (r: Self)
        ensures
            r.binds@.len() == 0,
            r.records@.len() == 0,
            r.has_default_setup(),
    {
        InputMap {
            binds: Vec::new(),
            records: Vec::new(),
            mouse_pos: (0, 0),
            recently_pressed: None,
            text_typed: None,
            mouse_scale: DEFAULT_MOUSE_SCALE,
            scroll_scale: DEFAULT_SCROLL_SCALE,
            press_sensitivity: DEFAULT_PRESS_SENSITIVITY,
        }
    }

    /// A map in which each action of `binds` is bound to each code of its
    /// list, in order; no action has a record yet. Actions are told apart by
    /// their `==`, which must be plain equality (as for integers).
    pub fn new(binds: &[(F, Vec<InputCode>)]) -> (r: Self)
        requires
            obeys_concrete_eq::<F>(),
        ensures
            r.wf(),
            r.has_default_setup(),
            r.records() == Map::<F, ActionRecord>::empty(),
            forall|c: InputCode| #[trigger] r.bound(c) == bind_pairs(binds@, c),
    {
        let mut result = Self::blank();
        proof {
            assert(result.bind_map() =~= Map::<InputCode, Seq<F>>::empty());
            assert(result.records() =~= Map::<F, ActionRecord>::empty());
            assert(binds@.take(0) =~= Seq::<(F, Vec<InputCode>)>::empty());
        }
        let mut p: usize = 0;
        while p < binds.len()
            invariant
                obeys_concrete_eq::<F>(),
                result.wf(),
                result.has_default_setup(),
                result.records() == Map::<F, ActionRecord>::empty(),
                p <= binds@.len(),
                forall|c: InputCode| #[trigger] result.bound(c) == bind_pairs(binds@.take(p as int), c),
            decreases binds@.len() - p,
        {
            let a: F = binds[p].0;
            let codes: &Vec<InputCode> = &binds[p].1;
            let ghost done = binds@.take(p as int);
            let mut j: usize = 0;
            proof {
                assert(codes@.take(0) =~= Seq::<InputCode>::empty());
                assert forall|c: InputCode| #[trigger] result.bound(c) == bind_pairs(done, c) + bind_codes(a, codes@.take(0), c) by {
                    assert(bind_pairs(done, c) + bind_codes(a, codes@.take(0), c) =~= bind_pairs(done, c));
                }
            }
            while j < codes.len()
                invariant
                    obeys_concrete_eq::<F>(),
                    result.wf(),
                    result.has_default_setup(),
                    result.records() == Map::<F, ActionRecord>::empty(),
                    j <= codes@.len(),
                    forall|c: InputCode| #[trigger] result.bound(c) == bind_pairs(done, c) + bind_codes(a, codes@.take(j as int), c),
                decreases codes@.len() - j,
            {
                let code = codes[j];
                let ghost prev = result;
                result.bind(code, a);
                proof {
                    assert forall|c: InputCode| #[trigger] result.bound(c) == bind_pairs(done, c) + bind_codes(a, codes@.take(j + 1), c) by {
                        assert(codes@.take(j + 1).drop_last() =~= codes@.take(j as int));
                        assert(codes@.take(j + 1).last() == code);
                        if c == code {
                            assert((bind_pairs(done, c) + bind_codes(a, codes@.take(j as int), c)).push(a) =~= bind_pairs(done, c) + bind_codes(a, codes@.take(j as int), c).push(a));
                        }
                    }
                }
                j += 1;
            }
            proof {
                assert(codes@.take(codes@.len() as int) =~= codes@);
                assert(binds@.take(p + 1).drop_last() =~= done);
                assert(binds@.take(p + 1).last() == binds@[p as int]);
            }
            p += 1;
        }
        proof {
            assert(binds@.take(binds@.len() as int) =~= binds@);
        }
        result
    }

    /// The intensity of `action`; 0 where no update has reached it.
    pub fn action_val(&self, action: F) -> (r: u32)
        requires
            self.wf(),
        ensures
            r == self.record(action).value,
    {
        self.current(&action).value
    }

    /// Whether `action` is held: its intensity is at least the press
    /// sensitivity.
    pub fn pressing(&self, action: F) -> (r: bool)
        requires
            self.wf(),
        ensures
            r == (self.record(action).value >= self.press_sensitivity),
    {
        self.action_val(action) >= self.press_sensitivity
    }

    /// Whether the last update that reached `action` pressed it.
    pub fn pressed(&self, action: F) -> (r: bool)
        requires
            self.wf(),
        ensures
            r == self.record(action).just_pressed,
    {
        self.current(&action).just_pressed
    }

    /// Whether the last update that reached `action` released it.
    pub fn released(&self, action: F) -> (r: bool)
        requires
            self.wf(),
        ensures
            r == self.record(action).just_released,
    {
        self.current(&action).just_released
    }

    /// The intensity of `pos` less that of `neg`.
    pub fn axis(&self, pos: F, neg: F) -> (r: i64)
        requires
            self.wf(),
        ensures
            r == self.record(pos).value - self.record(neg).value,
    {
        self.action_val(pos) as i64 - self.action_val(neg) as i64
    }

    /// The two axes as a vector, unscaled.
    pub fn dir(&self, pos_x: F, neg_x: F, pos_y: F, neg_y: F) -> (r: (i64, i64))
        requires
            self.wf(),
        ensures
            r.0 == self.record(pos_x).value - self.record(neg_x).value,
            r.1 == self.record(pos_y).value - self.record(neg_y).value,
    {
        (self.axis(pos_x, neg_x), self.axis(pos_y, neg_y))
    }

    /// The two axes as a vector no longer than a full unit (see
    /// [`clamp_len`]).
    pub fn dir_max_len_1(&self, pos_x: F, neg_x: F, pos_y: F, neg_y: F) -> (r: (i64, i64))
        requires
            self.wf(),
        ensures
            clamped(
                self.record(pos_x).value - self.record(neg_x).value,
                self.record(pos_y).value - self.record(neg_y).value,
                r,
            ),
    {
        let x = self.axis(pos_x, neg_x);
        let y = self.axis(pos_y, neg_y);
        clamp_len(x, y)
    }

    /// Clears every edge and keeps every intensity.
    fn clear_edges(&mut self)
        requires
            old(self).wf(),
        ensures
            final(self).wf(),
            final(self).only_records_changed(old(self)),
            final(self).records() == cleared(old(self).records()),
    {
        let ghost before = *self;
        let n = self.records.len();
        let mut i: usize = 0;
        while i < n
            invariant
                self.only_records_changed(&before),
                n == self.records@.len() == before.records@.len(),
                i <= n,
                forall|j: int|
                    0 <= j < i ==> #[trigger] self.records@[j] == (
                    before.records@[j].0,
                    ActionRecord {
                        value: before.records@[j].1.value,
                        just_pressed: false,
                        just_released: false,
                    },
                ),
                forall|j: int| i <= j < n ==> #[trigger] self.records@[j] == before.records@[j],
            decreases n - i,
        {
            let a: F = self.records[i].0;
            let v: u32 = self.records[i].1.value;
            self.records.set(i, (a, ActionRecord { value: v, just_pressed: false, just_released: false }));
            i += 1;
        }
        proof {
            assert forall|j: int| 0 <= j < n implies self.records@[j].0 == before.records@[j].0 by {}
            assert forall|x: int, y: int|
                0 <= x < y < self.records@.len() implies self.records@[x].0 != self.records@[y].0 by {
                assert(before.records@[x].0 != before.records@[y].0);
            }
            assert forall|k: F| #[trigger] self.records().contains_key(k) <==> before.records().contains_key(k) by {
                if self.records().contains_key(k) {
                    let j = choose|j: int| 0 <= j < self.records@.len() && self.records@[j].0 == k;
                    assert(before.records@[j].0 == k);
                }
                if before.records().contains_key(k) {
                    let j = choose|j: int| 0 <= j < before.records@.len() && before.records@[j].0 == k;
                    assert(self.records@[j].0 == k);
                }
            }
            assert forall|k: F| #[trigger] self.records().contains_key(k) implies self.records()[k]
                == cleared(before.records())[k] by {
                let j = choose|j: int| 0 <= j < self.records@.len() && self.records@[j].0 == k;
                self.lemma_record_at(j);
                before.lemma_record_at(j);
            }
            assert(self.records() =~= cleared(before.records()));
            assert(self.bind_map() == before.bind_map());
            assert forall|k: F| #[trigger] self.records().contains_key(k) implies self.is_bound(k) by {
                assert(before.is_bound(k));
                let c = choose|c: InputCode| #[trigger] before.bound(c).contains(k);
                assert(self.bound(c).contains(k));
            }
        }
    }

    /// Ends a frame: the accumulating mouse axes return to zero, every edge is
    /// cleared while intensities stay, and the typed text and the recently
    /// pressed code are forgotten.
    pub fn init(&mut self)
        requires
            old(self).wf(),
        ensures
            final(self).wf(),
            final(self).keeps_setup(old(self)),
            final(self).mouse_pos == old(self).mouse_pos,
            final(self).text_typed == None::<String>,
            final(self).status() == old(self).reset_step(old(self).status()),
    {
        self.update_val(InputCode::MouseMoveX(AxisSign::Pos), 0);
        self.update_val(InputCode::MouseMoveX(AxisSign::Neg), 0);
        self.update_val(InputCode::MouseMoveY(AxisSign::Pos), 0);
        self.update_val(InputCode::MouseMoveY(AxisSign::Neg), 0);
        self.update_val(InputCode::MouseScroll(AxisSign::Pos), 0);
        self.update_val(InputCode::MouseScroll(AxisSign::Neg), 0);
        self.update_val(InputCode::MouseScrollX(AxisSign::Pos), 0);
        self.update_val(InputCode::MouseScrollX(AxisSign::Neg), 0);
        self.clear_edges();
        let ghost cleared_map = *self;
        self.recently_pressed = None;
        self.text_typed = None;
        proof {
            self.lemma_wf_tables(&cleared_map);
        }
    }

    /// Raw device input: mouse motion and scrolling accumulate on their
    /// half-axis codes until the next [`InputMap::init`].
    pub fn update_with_device_event(&mut self, event: &DeviceEvent)
        requires
            old(self).wf(),
        ensures
            final(self).wf(),
            final(self).keeps_setup(old(self)),
            final(self).mouse_pos == old(self).mouse_pos,
            final(self).text_typed == old(self).text_typed,
            final(self).status() == old(self).device_step(old(self).status(), *event),
    {
        let scale = self.mouse_scale;
        let scroll = self.scroll_scale;
        match *event {
            DeviceEvent::MouseMotion { dx, dy } => {
                self.modify_val(InputCode::MouseMoveX(AxisSign::Pos), positive_part_of(dx as i64, scale));
                self.modify_val(InputCode::MouseMoveX(AxisSign::Neg), positive_part_of(-(dx as i64), scale));
                self.modify_val(InputCode::MouseMoveY(AxisSign::Pos), positive_part_of(dy as i64, scale));
                self.modify_val(InputCode::MouseMoveY(AxisSign::Neg), positive_part_of(-(dy as i64), scale));
            },
            DeviceEvent::MouseWheel { delta } => {
                let (x, y): (i32, i32) = match delta {
                    ScrollDelta::Lines(x, y) => (x, y),
                    ScrollDelta::Pixels(x, y) => (x, y),
                };
                self.modify_val(InputCode::MouseScroll(AxisSign::Pos), positive_part_of(y as i64, scroll));
                self.modify_val(InputCode::MouseScroll(AxisSign::Neg), positive_part_of(-(y as i64), scroll));
                self.modify_val(InputCode::MouseScrollX(AxisSign::Pos), positive_part_of(x as i64, scroll));
                self.modify_val(InputCode::MouseScrollX(AxisSign::Neg), positive_part_of(-(x as i64), scroll));
            },
            DeviceEvent::Other => {},
        }
    }

    /// Window input: the cursor position, mouse buttons and keys. A key that
    /// types text adds it to the frame's text; one that types none clears it.
    pub fn update_with_window_event(&mut self, event: &WindowEvent)
        requires
            old(self).wf(),
        ensures
            final(self).wf(),
            final(self).keeps_setup(old(self)),
            final(self).status() == old(self).window_step(old(self).status(), *event),
            final(self).mouse_pos == (match *event {
                WindowEvent::CursorMoved { x, y } => (x, y),
                _ => old(self).mouse_pos,
            }),
            text_view(final(self).text_typed) == (match *event {
                WindowEvent::KeyboardInput { key, text, pressed } => typed_after(old(self).text_typed, text),
                _ => text_view(old(self).text_typed),
            }),
    {
        match event {
            WindowEvent::CursorMoved { x, y } => {
                self.mouse_pos = (*x, *y);
                proof {
                    self.lemma_wf_tables(old(self));
                }
            },
            WindowEvent::MouseInput { pressed, button } => {
                let v: u32 = if *pressed { UNIT } else { 0 };
                self.update_val(InputCode::Mouse(*button), v);
            },
            WindowEvent::KeyboardInput { key, text, pressed } => {
                match text {
                    Some(t) => {
                        let joined: String = match &self.text_typed {
                            Some(prev) => prev.clone().concat(t.as_str()),
                            None => t.clone(),
                        };
                        self.text_typed = Some(joined);
                    },
                    None => {
                        self.text_typed = None;
                    },
                }
                proof {
                    self.lemma_wf_tables(old(self));
                }
                let v: u32 = if *pressed { UNIT } else { 0 };
                self.update_val(*key, v);
            },
            WindowEvent::Other => {},
        }
    }

    /// A gamepad event, applied to the codes of any gamepad and to those
    /// scoped to the event's gamepad.
    pub fn update_gamepad(&mut self, event: GamepadEvent)
        requires
            old(self).wf(),
        ensures
            final(self).wf(),
            final(self).keeps_setup(old(self)),
            final(self).mouse_pos == old(self).mouse_pos,
            final(self).text_typed == old(self).text_typed,
            final(self).status() == old(self).gamepad_step(old(self).status(), event),
    {
        match event {
            GamepadEvent::ButtonPressed { button, id } => {
                self.update_val(InputCode::GamepadButtonOn(button, id), UNIT);
                self.update_val(InputCode::GamepadButton(button), UNIT);
            },
            GamepadEvent::ButtonReleased { button, id } => {
                self.update_val(InputCode::GamepadButtonOn(button, id), 0);
                self.update_val(InputCode::GamepadButton(button), 0);
            },
            GamepadEvent::ButtonChanged { button, value, id } => {
                self.update_val(InputCode::GamepadButton(button), value);
                self.update_val(InputCode::GamepadButtonOn(button, id), value);
            },
            GamepadEvent::AxisChanged { axis, position, id } => {
                let pos: u32 = if position > 0 { position as u32 } else { 0 };
                let neg: u32 = if position < 0 { (-(position as i64)) as u32 } else { 0 };
                let up = InputCode::gamepad_axis_pos(axis);
                let down = InputCode::gamepad_axis_neg(axis);
                self.update_val(up, pos);
                self.update_val(down, neg);
                self.update_val(up.set_gamepad_id(id), pos);
                self.update_val(down.set_gamepad_id(id), neg);
            },
            GamepadEvent::Other => {},
        }
    }
}

} // verus!
