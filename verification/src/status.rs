//! One round of play: a cell row, an operator queue, a target value, an
//! operation budget, and the three scoring flags, driven by one transition
//! per player action.

use vstd::prelude::*;

use crate::sen::encode;
use crate::sen::op_token;
use crate::sen::pow4;
use crate::sen::row_apply;
use crate::sen::row_tokens;
use crate::sen::row_wf;
use crate::sen::sel_wf;
use crate::sen::zero_row;
use crate::sen::lemma_encode_bound;
use crate::sen::lemma_pow4_le;
use crate::sen::lemma_row_apply_wf;
use crate::sen::lemma_row_tokens_len;
use crate::sen::lemma_row_tokens_pending;
use crate::sen::Sen;
use crate::sen::SenManager;
use crate::sen::SenOp;
use crate::sen::SenOpManager;

verus! {

/// Where a round stands: still being played, or finished with the target
/// value matched.
#[derive(Clone, Copy, Debug, PartialEq, Eq, Structural)]
pub enum RoundState {
    InProgress,
    Solved,
}

/// Why a round definition was rejected at construction time.
#[derive(Clone, Copy, Debug, PartialEq, Eq, Structural)]
pub enum ConfigError {
    /// The row length is zero, or too long for the numeric encoding.
    BadRowLength,
    /// The target value cannot be encoded by a row of the given length.
    BadTargetValue,
    /// The initial operator list is empty or contains a pending-result token.
    BadOperatorList,
}

/// The lowercase name an applied operator contributes to the round's
/// operator history.
pub open spec fn op_history_name(op: SenOp) -> Seq<char> {
    match op {
        SenOp::Off => "off"@,
        SenOp::On => "on"@,
        SenOp::Not => "not"@,
        SenOp::Or => "or"@,
        SenOp::And => "and"@,
        SenOp::OrO(_) => "oro"@,
        SenOp::AndO(_) => "ando"@,
    }
}

/// Whether the character sequence contains `on` as a substring.
pub open spec fn has_on(s: Seq<char>) -> bool {
    exists|i: int| 0 <= i && i + 2 <= s.len() && (#[trigger] s[i]) == 'o' && s[i + 1] == 'n'
}

/// Appends the lowercase name of `op` to the history string.
fn push_history(history: &mut String, op: &SenOp)
    ensures
        final(history)@ == old(history)@ + op_history_name(*op),
{
    match op {
        SenOp::Off => history.append("off"),
        SenOp::On => history.append("on"),
        SenOp::Not => history.append("not"),
        SenOp::Or => history.append("or"),
        SenOp::And => history.append("and"),
        SenOp::OrO(_) => history.append("oro"),
        SenOp::AndO(_) => history.append("ando"),
    }
}

/// Whether the round's history contains `on`; the scan looks at every
/// adjacent pair of characters.
pub fn contains_on(history: &String) -> (r: bool)
    ensures
        r == has_on(history@),
{
    let s = history.as_str();
    let n = s.unicode_len();
    if n < 2 {
        proof {
            assert(!has_on(history@));
        }
        return false;
    }
    let mut i: usize = 0;
    while i < n - 1
        invariant
            2 <= n == s@.len(),
            s@ == history@,
            i <= n - 1,
            forall|j: int| 0 <= j < i ==> !((#[trigger] s@[j]) == 'o' && s@[j + 1] == 'n'),
        decreases n - i,
    {
        if s.get_char(i) == 'o' && s.get_char(i + 1) == 'n' {
            return true;
        }
        i += 1;
    }
    proof {
        assert(!has_on(history@));
    }
    false
}

/// The queue contents after `toks` is spliced in immediately after position
/// `c`.
pub open spec fn splice_after(q: Seq<SenOp>, c: int, toks: Seq<SenOp>) -> Seq<SenOp> {
    q.take(c + 1) + toks + q.skip(c + 1)
}

/// One round of play. Fields are public so that contracts and callers can
/// observe the whole engine state; mutation goes through the methods, whose
/// contracts preserve `wf`.
#[derive(Debug)]
pub struct PuzzleStatus {
    /// The cell row being manipulated.
    pub sen: SenManager,
    /// The circular operator queue.
    pub sen_op: SenOpManager,
    /// The value the row must encode to for the round to be solved.
    pub target_value: i32,
    /// The operation budget: solving within it earns the third flag.
    pub ops_border: i32,
    /// How many row-changing applications happened since the last reset.
    pub ops_count: i32,
    /// The lowercase names of every operator applied since the last reset,
    /// concatenated.
    pub history: String,
    /// Whether the target value was ever matched (first flag).
    pub is_clear: bool,
    /// Whether the history contained `on` when the target was matched
    /// (second flag).
    pub is_using_onsen: bool,
    /// Whether a match ever happened within the operation budget (third
    /// flag).
    pub is_lower_border: bool,
    /// Where the round stands.
    pub state: RoundState,
}

impl PuzzleStatus {
    /// Round invariant: a well-formed row whose encoding fits the numeric
    /// range, a well-formed queue that keeps at least one base (non-pending)
    /// operator, a target the row can reach, and a non-negative counter.
    pub open spec fn wf(self) -> bool {
        &&& self.sen.wf()
        &&& 1 <= self.sen@.len() <= 15
        &&& self.sen_op.wf()
        &&& self.sen_op.ops_wf()
        &&& exists|i: int|
            0 <= i < self.sen_op@.len() && !(#[trigger] self.sen_op@[i]).is_pending()
        &&& 0 <= self.target_value < pow4(self.sen@.len())
        &&& 0 <= self.ops_count
    }

    /// The full transition one player action makes, given the selection
    /// `sel` the selector answered: the chosen operator is applied to the
    /// selected cells; a changed row counts one operation and consumes a
    /// pending operator; produced tokens are spliced in after the cursor;
    /// the operator's name extends the history; then `Off` always
    /// reinitializes the round, a missed target leaves it in progress, and a
    /// matched target (under any other operator) fixes the three flags and
    /// solves the round.
    pub open spec fn step_ok(pre: PuzzleStatus, sel: Seq<bool>, post: PuzzleStatus) -> bool {
        let op = pre.sen_op@[pre.sen_op.sen_index as int];
        let row0 = pre.sen@;
        let row1 = row_apply(op, row0, sel);
        let toks = row_tokens(op, row0, sel);
        let changed = row1 != row0;
        let count1: int = if changed {
            pre.ops_count + 1
        } else {
            pre.ops_count as int
        };
        let popped = changed && op.is_pending();
        let q1 = if popped {
            pre.sen_op@.remove(pre.sen_op.sen_index as int)
        } else {
            pre.sen_op@
        };
        let c1: int = if popped && pre.sen_op.sen_index == pre.sen_op@.len() - 1 {
            pre.sen_op.sen_index - 1
        } else {
            pre.sen_op.sen_index as int
        };
        let hist1 = pre.history@ + op_history_name(op);
        &&& post.target_value == pre.target_value
        &&& post.ops_border == pre.ops_border
        &&& post.sen_op@ == splice_after(q1, c1, toks)
        &&& post.sen_op.sen_index == c1
        &&& if op == SenOp::Off {
            // The explicit reset path: row, counter and history are
            // reinitialized; the recorded flags keep their values.
            &&& post.sen@ == zero_row(row0.len())
            &&& post.ops_count == 0
            &&& post.history@ == Seq::<char>::empty()
            &&& post.state == RoundState::InProgress
            &&& post.is_clear == pre.is_clear
            &&& post.is_using_onsen == pre.is_using_onsen
            &&& post.is_lower_border == pre.is_lower_border
        } else if encode(row1) != pre.target_value {
            // Missed the target: the round stays open.
            &&& post.sen@ == row1
            &&& post.ops_count == count1
            &&& post.history@ == hist1
            &&& post.state == pre.state
            &&& post.is_clear == pre.is_clear
            &&& post.is_using_onsen == pre.is_using_onsen
            &&& post.is_lower_border == pre.is_lower_border
        } else {
            // Matched the target under a non-Off operator: fix the flags
            // and solve the round.
            &&& post.sen@ == row1
            &&& post.ops_count == count1
            &&& post.history@ == hist1
            &&& post.state == RoundState::Solved
            &&& post.is_clear == true
            &&& post.is_using_onsen == (pre.is_using_onsen || has_on(hist1))
            &&& post.is_lower_border == (pre.is_lower_border || count1 <= pre.ops_border)
        }
    }

    /// Builds a round from its definition: a row length, a target value,
    /// an operation budget, and the initial operator list. Each malformed
    /// part of the definition is rejected, checked in this order: a row
    /// length the encoding cannot carry, a target value the row cannot
    /// reach, and an operator list that is empty or already holds a
    /// pending-result token.
    pub fn new(row_length: usize, target_value: i32, ops_border: i32, sen_op_list: Vec<SenOp>) -> (r:
        Result<Self, ConfigError>)
        ensures
            match r {
                Ok(st) => {
                    &&& 1 <= row_length <= 15
                    &&& 0 <= target_value < pow4(row_length as nat)
                    &&& sen_op_list@.len() > 0
                    &&& forall|i: int|
                        0 <= i < sen_op_list@.len() ==> !(#[trigger] sen_op_list@[i]).is_pending()
                    &&& st.sen@ == zero_row(row_length as nat)
                    &&& st.sen_op@ == sen_op_list@
                    &&& st.sen_op.sen_index == 0
                    &&& st.target_value == target_value
                    &&& st.ops_border == ops_border
                    &&& st.ops_count == 0
                    &&& st.history@ == Seq::<char>::empty()
                    &&& st.is_clear == false
                    &&& st.is_using_onsen == false
                    &&& st.is_lower_border == false
                    &&& st.state == RoundState::InProgress
                    &&& st.wf()
                },
                Err(e) => {
                    &&& (e == ConfigError::BadRowLength <==> (row_length == 0 || row_length > 15))
                    &&& (e == ConfigError::BadTargetValue <==> (1 <= row_length <= 15 && !(0
                        <= target_value < pow4(row_length as nat))))
                    &&& (e == ConfigError::BadOperatorList <==> (1 <= row_length <= 15 && 0
                        <= target_value < pow4(row_length as nat) && !(sen_op_list@.len() > 0
                        && forall|i: int|
                        0 <= i < sen_op_list@.len() ==> !(
                        #[trigger] sen_op_list@[i]).is_pending())))
                },
            },
    {
        if row_length == 0 || row_length > 15 {
            return Err(ConfigError::BadRowLength);
        }
        let limit = pow4_i32(row_length);
        if target_value < 0 || target_value >= limit {
            return Err(ConfigError::BadTargetValue);
        }
        if sen_op_list.len() == 0 {
            return Err(ConfigError::BadOperatorList);
        }
        let mut i: usize = 0;
        let n = sen_op_list.len();
        while i < n
            invariant
                i <= n,
                n == sen_op_list@.len(),
                n > 0,
                1 <= row_length <= 15,
                0 <= target_value < pow4(row_length as nat),
                forall|j: int| 0 <= j < i ==> !(#[trigger] sen_op_list@[j]).is_pending(),
            decreases n - i,
        {
            if sen_op_list[i].is_o() {
                proof {
                    assert(sen_op_list@[i as int].is_pending());
                }
                return Err(ConfigError::BadOperatorList);
            }
            i += 1;
        }
        let st = Self {
            sen: SenManager::with_length(row_length),
            sen_op: SenOpManager::new(sen_op_list, Some(0)),
            target_value,
            ops_border,
            ops_count: 0,
            history: String::new(),
            is_clear: false,
            is_using_onsen: false,
            is_lower_border: false,
            state: RoundState::InProgress,
        };
        proof {
            assert(!st.sen_op@[0].is_pending());
            assert(forall|j: int|
                0 <= j < st.sen@.len() ==> (#[trigger] st.sen@[j]).bit == 0);
        }
        Ok(st)
    }

    /// Returns the round to its initial playable state: a zeroed row, a
    /// zeroed operation counter, an empty history, and `InProgress`. The
    /// queue, the target, the budget and the recorded flags are untouched.
    pub fn reinitialize(&mut self)
        requires
            old(self).wf(),
        ensures
            final(self).sen@ == zero_row(old(self).sen@.len()),
            final(self).ops_count == 0,
            final(self).history@ == Seq::<char>::empty(),
            final(self).state == RoundState::InProgress,
            final(self).sen_op == old(self).sen_op,
            final(self).target_value == old(self).target_value,
            final(self).ops_border == old(self).ops_border,
            final(self).is_clear == old(self).is_clear,
            final(self).is_using_onsen == old(self).is_using_onsen,
            final(self).is_lower_border == old(self).is_lower_border,
            final(self).wf(),
    {
        self.sen.init();
        self.ops_count = 0;
        self.history = String::new();
        self.state = RoundState::InProgress;
    }

    /// Performs one player action: applies the operator under the cursor to
    /// every cell the selector picks, and lets the round react as
    /// `step_ok` describes. Some sequence of the selector's answers accounts
    /// for the transition taken.
    pub fn apply_player_action<F: Fn(usize, Sen) -> bool>(&mut self, f: F)
        requires
            old(self).wf(),
            old(self).state == RoundState::InProgress,
            old(self).ops_count < i32::MAX,
            old(self).sen_op@.len() + old(self).sen@.len() <= usize::MAX,
            forall|j: int|
                0 <= j < old(self).sen@.len() ==> call_requires(
                    f,
                    (j as usize, old(self).sen@[j]),
                ),
        ensures
            final(self).wf(),
            exists|sel: Seq<bool>|
                #[trigger] sel_wf(f, old(self).sen@, sel) && Self::step_ok(
                    *old(self),
                    sel,
                    *final(self),
                ),
    {
        let ghost pre = *old(self);
        let op_before = self.sen_op.get_top();
        let prev_sens = self.sen.snapshot();
        let mut new_op = self.sen.operation(&op_before, f);
        let ghost row1 = self.sen@;
        let ghost toksg = new_op@;
        proof {
            assert(exists|s: Seq<bool>|
                {
                    &&& #[trigger] sel_wf(f, pre.sen@, s)
                    &&& row1 == row_apply(op_before, pre.sen@, s)
                    &&& toksg == row_tokens(op_before, pre.sen@, s)
                });
        }
        let ghost sel = choose|s: Seq<bool>|
            {
                &&& #[trigger] sel_wf(f, pre.sen@, s)
                &&& row1 == row_apply(op_before, pre.sen@, s)
                &&& toksg == row_tokens(op_before, pre.sen@, s)
            };
        let changed = !self.sen.same_cells(&prev_sens);
        let ghost popped = changed && op_before.is_pending();
        if changed {
            self.ops_count = self.ops_count + 1;
            if op_before.is_o() {
                proof {
                    let b = choose|i: int|
                        0 <= i < pre.sen_op@.len() && !(#[trigger] pre.sen_op@[i]).is_pending();
                    assert(b != pre.sen_op.sen_index);
                    assert(pre.sen_op@.len() >= 2);
                }
                self.sen_op.pop();
            }
        }
        let ghost q1 = self.sen_op@;
        let ghost c1 = self.sen_op.sen_index as int;
        proof {
            lemma_row_tokens_len(op_before, pre.sen@, sel);
            lemma_row_tokens_pending(op_before, pre.sen@, sel);
            lemma_row_apply_wf(op_before, pre.sen@, sel);
        }
        self.sen_op.append_at_index(&mut new_op);
        push_history(&mut self.history, &op_before);
        if op_before == SenOp::Off {
            self.sen.init();
            self.ops_count = 0;
            self.history = String::new();
            self.state = RoundState::InProgress;
        } else {
            let value = self.sen.get_number();
            if value == self.target_value {
                self.is_clear = true;
                let has = contains_on(&self.history);
                self.is_using_onsen = self.is_using_onsen || has;
                self.is_lower_border = self.is_lower_border || self.ops_count <= self.ops_border;
                self.state = RoundState::Solved;
            }
        }
        proof {
            assert(self.sen_op@ =~= splice_after(q1, c1, toksg));
            let b = choose|i: int|
                0 <= i < pre.sen_op@.len() && !(#[trigger] pre.sen_op@[i]).is_pending();
            let bq1: int = if popped && b > pre.sen_op.sen_index {
                b - 1
            } else {
                b
            };
            assert(0 <= bq1 < q1.len() && !q1[bq1].is_pending());
            let bq2: int = if bq1 <= c1 {
                bq1
            } else {
                bq1 + toksg.len()
            };
            assert(0 <= bq2 < self.sen_op@.len() && !(#[trigger] self.sen_op@[bq2]).is_pending());
            assert(self.sen_op.ops_wf()) by {
                assert forall|k: int|
                    0 <= k < self.sen_op@.len() implies (#[trigger] self.sen_op@[k]).wf() by {
                    if k <= c1 {
                        assert(self.sen_op@[k] == q1[k]);
                    } else if k < c1 + 1 + toksg.len() {
                        assert(self.sen_op@[k] == toksg[k - (c1 + 1)]);
                    } else {
                        assert(self.sen_op@[k] == q1[k - toksg.len()]);
                    }
                }
            }
            assert(Self::step_ok(pre, sel, *self));
            assert(sel_wf(f, pre.sen@, sel));
            assert(final(self).wf());
        }
    }

    /// The row's current encoded value, as shown to the player.
    pub fn temperature(&self) -> (r: i32)
        requires
            self.wf(),
        ensures
            r == encode(self.sen@),
    {
        self.sen.get_number()
    }

    /// Whether at least one of the three flags has been earned.
    pub fn is_cleared(&self) -> (r: bool)
        ensures
            r == (self.is_clear || self.is_lower_border || self.is_using_onsen),
    {
        self.is_clear || self.is_lower_border || self.is_using_onsen
    }

    /// Whether all three flags have been earned.
    pub fn is_complete(&self) -> (r: bool)
        ensures
            r == (self.is_clear && self.is_lower_border && self.is_using_onsen),
    {
        self.is_clear && self.is_lower_border && self.is_using_onsen
    }
}

/// 4 to the power `n`, computed within `i32`; the exponent bound keeps the
/// result below `2^31`.
fn pow4_i32(n: usize) -> (r: i32)
    requires
        n <= 15,
    ensures
        r == pow4(n as nat),
{
    let mut acc: i32 = 1;
    let mut i: usize = 0;
    while i < n
        invariant
            i <= n <= 15,
            acc == pow4(i as nat),
            0 < acc <= pow4(i as nat),
        decreases n - i,
    {
        proof {
            lemma_pow4_le((i + 1) as nat, 15nat);
            assert(pow4(15nat) == 0x40000000) by {
                reveal_with_fuel(pow4, 16);
            }
        }
        acc = acc * 4;
        i += 1;
    }
    acc
}

} // verus!
