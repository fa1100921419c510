//! Properties that hold across updates of an [`InputMap`].
use vstd::prelude::*;
use crate::UNIT;
use crate::input::{
    idle, lemma_apply_all_untouched, lemma_replace_value, lemma_single_pass, record_in, Change,
    InputMap, Status,
};
use crate::input_code::{AxisSign, InputCode};

verus! {

/// `a` appears in `s` exactly once.
pub open spec fn occurs_once<F>(s: Seq<F>, a: F) -> bool {
    exists|i: int|
        0 <= i < s.len() && s[i] == a && forall|j: int| 0 <= j < s.len() && j != i ==> s[j] != a
}

/// The half-axis codes that accumulate motion and scrolling.
pub open spec fn accumulating(c: InputCode) -> bool {
    match c {
        InputCode::MouseMoveX(_) => true,
        InputCode::MouseMoveY(_) => true,
        InputCode::MouseScroll(_) => true,
        InputCode::MouseScrollX(_) => true,
        _ => false,
    }
}

/// Whether some motion or scroll half-axis code has `a` bound to it.
pub open spec fn bound_to_accumulating<F: Copy + PartialEq>(m: &InputMap<F>, a: F) -> bool {
    exists|c: InputCode| accumulating(c) && #[trigger] m.bound(c).contains(a)
}

/// An action that no code is bound to is idle: intensity 0, neither pressed
/// nor released, and not held while the press sensitivity is above 0. Every
/// update keeps the map well formed, so this holds whatever events came.
pub proof fn unbound_action_stays_idle<F: Copy + PartialEq>(m: &InputMap<F>, a: F)
    requires
        m.wf(),
        !m.is_bound(a),
    ensures
        m.record(a) == idle(),
        m.press_sensitivity > 0 ==> !(m.record(a).value >= m.press_sensitivity),
{
}

/// The axis of two actions that no code is bound to is 0.
pub proof fn axis_of_unbound_is_zero<F: Copy + PartialEq>(m: &InputMap<F>, pos: F, neg: F)
    requires
        m.wf(),
        !m.is_bound(pos),
        !m.is_bound(neg),
    ensures
        m.record(pos).value - m.record(neg).value == 0,
{
}

proof fn lemma_set_step_value<F: Copy + PartialEq>(
    m: &InputMap<F>,
    st: Status<F>,
    code: InputCode,
    v: u32,
    a: F,
)
    ensures
        record_in(m.set_step(st, code, v).records, a).value == if m.bound(code).contains(a) {
            v
        } else {
            record_in(st.records, a).value
        },
{
    if m.bound(code).contains(a) {
        lemma_replace_value(st.records, m.bound(code), v, m.press_sensitivity, a);
    } else {
        lemma_apply_all_untouched(
            st.records,
            m.bound(code),
            Change::Replace(v),
            m.press_sensitivity,
            a,
        );
    }
}

/// With one action bound to two codes, the code that reports last decides
/// the action's intensity: the codes' values are not combined.
pub proof fn last_write_wins<F: Copy + PartialEq>(
    m: &InputMap<F>,
    st: Status<F>,
    a: F,
    code_a: InputCode,
    code_b: InputCode,
    va: u32,
    vb: u32,
)
    requires
        m.bound(code_a).contains(a),
        m.bound(code_b).contains(a),
    ensures
        record_in(m.set_step(m.set_step(st, code_a, va), code_b, vb).records, a).value == vb,
{
    lemma_set_step_value(m, m.set_step(st, code_a, va), code_b, vb, a);
}

/// Pressing the code of an unpressed action presses it, with the pressed edge
/// alone; pressing it again straight after leaves no pressed edge.
pub proof fn press_then_hold<F: Copy + PartialEq>(
    m: &InputMap<F>,
    st: Status<F>,
    code: InputCode,
    a: F,
)
    requires
        occurs_once(m.bound(code), a),
        m.press_sensitivity <= UNIT,
        record_in(st.records, a).value < m.press_sensitivity,
    ensures
        ({
            let first = record_in(m.set_step(st, code, UNIT).records, a);
            &&& first.value == UNIT
            &&& first.value >= m.press_sensitivity
            &&& first.just_pressed
            &&& !first.just_released
        }),
        !record_in(
            m.set_step(m.set_step(st, code, UNIT), code, UNIT).records,
            a,
        ).just_pressed,
{
    let s = m.bound(code);
    let sens = m.press_sensitivity;
    let i = choose|i: int|
        0 <= i < s.len() && s[i] == a && forall|j: int| 0 <= j < s.len() && j != i ==> s[j] != a;
    lemma_single_pass(st.records, s, Change::Replace(UNIT), sens, a, i);
    let s1 = m.set_step(st, code, UNIT);
    lemma_single_pass(s1.records, s, Change::Replace(UNIT), sens, a, i);
}

/// Releasing the code of a pressed action gives the released edge at
/// intensity 0; the frame reset then clears the edge and leaves the
/// intensity at 0.
pub proof fn release_then_reset<F: Copy + PartialEq>(
    m: &InputMap<F>,
    st: Status<F>,
    code: InputCode,
    a: F,
)
    requires
        occurs_once(m.bound(code), a),
        m.press_sensitivity > 0,
        record_in(st.records, a).value >= m.press_sensitivity,
    ensures
        ({
            let released = record_in(m.set_step(st, code, 0).records, a);
            &&& released.value == 0
            &&& released.just_released
            &&& !released.just_pressed
        }),
        ({
            let after = record_in(m.reset_step(m.set_step(st, code, 0)).records, a);
            &&& after.value == 0
            &&& !after.just_released
            &&& !after.just_pressed
        }),
{
    let s = m.bound(code);
    let i = choose|i: int|
        0 <= i < s.len() && s[i] == a && forall|j: int| 0 <= j < s.len() && j != i ==> s[j] != a;
    lemma_single_pass(st.records, s, Change::Replace(0), m.press_sensitivity, a, i);
    let s1 = m.set_step(st, code, 0);
    lemma_zero_accumulated_value(m, s1, a);
}

proof fn lemma_zero_accumulated_value<F: Copy + PartialEq>(m: &InputMap<F>, st: Status<F>, a: F)
    ensures
        record_in(m.zero_accumulated(st).records, a).value == (if bound_to_accumulating(m, a) {
            0
        } else {
            record_in(st.records, a).value
        }),
        record_in(m.reset_step(st).records, a).value == record_in(
            m.zero_accumulated(st).records,
            a,
        ).value,
        !record_in(m.reset_step(st).records, a).just_pressed,
        !record_in(m.reset_step(st).records, a).just_released,
{
    let c1 = InputCode::MouseMoveX(AxisSign::Pos);
    let c2 = InputCode::MouseMoveX(AxisSign::Neg);
    let c3 = InputCode::MouseMoveY(AxisSign::Pos);
    let c4 = InputCode::MouseMoveY(AxisSign::Neg);
    let c5 = InputCode::MouseScroll(AxisSign::Pos);
    let c6 = InputCode::MouseScroll(AxisSign::Neg);
    let c7 = InputCode::MouseScrollX(AxisSign::Pos);
    let c8 = InputCode::MouseScrollX(AxisSign::Neg);
    let s1 = m.set_step(st, c1, 0);
    let s2 = m.set_step(s1, c2, 0);
    let s3 = m.set_step(s2, c3, 0);
    let s4 = m.set_step(s3, c4, 0);
    let s5 = m.set_step(s4, c5, 0);
    let s6 = m.set_step(s5, c6, 0);
    let s7 = m.set_step(s6, c7, 0);
    lemma_set_step_value(m, st, c1, 0, a);
    lemma_set_step_value(m, s1, c2, 0, a);
    lemma_set_step_value(m, s2, c3, 0, a);
    lemma_set_step_value(m, s3, c4, 0, a);
    lemma_set_step_value(m, s4, c5, 0, a);
    lemma_set_step_value(m, s5, c6, 0, a);
    lemma_set_step_value(m, s6, c7, 0, a);
    lemma_set_step_value(m, s7, c8, 0, a);
    if bound_to_accumulating(m, a) {
        let c = choose|c: InputCode| accumulating(c) && #[trigger] m.bound(c).contains(a);
        assert(c == c1 || c == c2 || c == c3 || c == c4 || c == c5 || c == c6 || c == c7 || c
            == c8);
    } else {
        assert(!m.bound(c1).contains(a));
        assert(!m.bound(c2).contains(a));
        assert(!m.bound(c3).contains(a));
        assert(!m.bound(c4).contains(a));
        assert(!m.bound(c5).contains(a));
        assert(!m.bound(c6).contains(a));
        assert(!m.bound(c7).contains(a));
        assert(!m.bound(c8).contains(a));
    }
}

/// The frame reset clears the edges of every action. It zeroes an action
/// bound to a motion or scroll half-axis, and keeps the intensity of any
/// other, so held keys and buttons stay held.
pub proof fn reset_clears_edges<F: Copy + PartialEq>(m: &InputMap<F>, st: Status<F>, a: F)
    ensures
        !record_in(m.reset_step(st).records, a).just_pressed,
        !record_in(m.reset_step(st).records, a).just_released,
        record_in(m.reset_step(st).records, a).value == (if bound_to_accumulating(m, a) {
            0
        } else {
            record_in(st.records, a).value
        }),
        m.reset_step(st).recent == None::<InputCode>,
{
    lemma_zero_accumulated_value(m, st, a);
}

/// Two accumulating updates of a code that reaches an action once add up,
/// as long as the sum fits.
pub proof fn accumulation_adds_up<F: Copy + PartialEq>(
    m: &InputMap<F>,
    st: Status<F>,
    code: InputCode,
    a: F,
    d1: u64,
    d2: u64,
)
    requires
        occurs_once(m.bound(code), a),
        record_in(st.records, a).value + d1 + d2 <= u32::MAX,
    ensures
        record_in(m.grow_step(m.grow_step(st, code, d1), code, d2).records, a).value
            == record_in(st.records, a).value + d1 + d2,
{
    let s = m.bound(code);
    let sens = m.press_sensitivity;
    let i = choose|i: int|
        0 <= i < s.len() && s[i] == a && forall|j: int| 0 <= j < s.len() && j != i ==> s[j] != a;
    lemma_single_pass(st.records, s, Change::Grow(d1), sens, a, i);
    let s1 = m.grow_step(st, code, d1);
    lemma_single_pass(s1.records, s, Change::Grow(d2), sens, a, i);
}

} // verus!
