//! Two-bit cells (`Sen`), the operator vocabulary (`SenOp`), the circular
//! operator queue (`SenOpManager`), and the cell row (`SenManager`).

use vstd::prelude::*;

verus! {

/// A single two-bit puzzle cell. A well-formed cell holds a value in `0..=3`.
#[derive(Clone, Copy, Debug, PartialEq, Eq, Structural)]
pub struct Sen {
    pub bit: u8,
}

impl Sen {
    /// A cell is well formed when its value fits in two bits.
    pub open spec fn wf(self) -> bool {
        self.bit < 4
    }

    pub fn new(bit: u8) -> (r: Self)
        requires
            bit < 4,
        ensures
            r.bit == bit,
    {
        Self { bit }
    }

    /// The icon path for this cell: cells at even row positions use the
    /// small icon, and the cell's two-bit value is spelled out in binary.
    pub fn to_file_name(&self, index: usize) -> (r: String)
        requires
            self.wf(),
        ensures
            r@ == sen_file_name(self.bit, index % 2 == 0),
    {
        if index % 2 == 0 {
            if self.bit == 0 {
                String::from_str("/resource/image/mark_small_sen_0b00.png")
            } else if self.bit == 1 {
                String::from_str("/resource/image/mark_small_sen_0b01.png")
            } else if self.bit == 2 {
                String::from_str("/resource/image/mark_small_sen_0b10.png")
            } else {
                String::from_str("/resource/image/mark_small_sen_0b11.png")
            }
        } else {
            if self.bit == 0 {
                String::from_str("/resource/image/mark_sen_0b00.png")
            } else if self.bit == 1 {
                String::from_str("/resource/image/mark_sen_0b01.png")
            } else if self.bit == 2 {
                String::from_str("/resource/image/mark_sen_0b10.png")
            } else {
                String::from_str("/resource/image/mark_sen_0b11.png")
            }
        }
    }
}

/// The icon path of a cell holding `bit`, small icon or not (see
/// `Sen::to_file_name`).
pub open spec fn sen_file_name(bit: u8, small: bool) -> Seq<char> {
    if small {
        if bit == 0 {
            "/resource/image/mark_small_sen_0b00.png"@
        } else if bit == 1 {
            "/resource/image/mark_small_sen_0b01.png"@
        } else if bit == 2 {
            "/resource/image/mark_small_sen_0b10.png"@
        } else {
            "/resource/image/mark_small_sen_0b11.png"@
        }
    } else {
        if bit == 0 {
            "/resource/image/mark_sen_0b00.png"@
        } else if bit == 1 {
            "/resource/image/mark_sen_0b01.png"@
        } else if bit == 2 {
            "/resource/image/mark_sen_0b10.png"@
        } else {
            "/resource/image/mark_sen_0b11.png"@
        }
    }
}

/// One selectable operator: five base actions, or a pending-result token
/// (`OrO`, `AndO`) carrying the precomputed cell value it will commit.
#[derive(Clone, Copy, Debug, PartialEq, Eq, Structural)]
pub enum SenOp {
    Off,
    On,
    Not,
    Or,
    And,
    OrO(Sen),
    AndO(Sen),
}

/// The value a cell takes when `op` is applied to a cell holding `b`.
/// `Or` and `And` leave the cell unchanged (they only stage a token);
/// the pending tokens overwrite the cell with their payload.
pub open spec fn op_bit(op: SenOp, b: u8) -> u8 {
    match op {
        SenOp::Off => 0,
        SenOp::On => 3,
        SenOp::Not => (3 - (b & 3)) as u8,
        SenOp::Or => b,
        SenOp::And => b,
        SenOp::OrO(s) => s.bit,
        SenOp::AndO(s) => s.bit,
    }
}

/// The pending-result token produced when `op` is applied to a cell holding
/// `b`: only `Or` and `And` produce one.
pub open spec fn op_token(op: SenOp, b: u8) -> Option<SenOp> {
    match op {
        SenOp::Or => Some(SenOp::OrO(Sen { bit: b | 2 })),
        SenOp::And => Some(SenOp::AndO(Sen { bit: b & 2 })),
        _ => None,
    }
}

/// The display name of an operator.
pub open spec fn op_name(op: SenOp) -> Seq<char> {
    match op {
        SenOp::Off => "Off"@,
        SenOp::On => "On"@,
        SenOp::Not => "Not"@,
        SenOp::Or => "Or"@,
        SenOp::And => "And"@,
        SenOp::OrO(_) => "OrO"@,
        SenOp::AndO(_) => "AndO"@,
    }
}

/// The icon path of an operator (see `SenOp::to_file_name`).
pub open spec fn op_file_name(op: SenOp) -> Seq<char> {
    match op {
        SenOp::Off => "/resource/image//mark_offsen.png"@,
        SenOp::On => "/resource/image//mark_onsen.png"@,
        SenOp::Not => "/resource/image//mark_notsen.png"@,
        SenOp::Or => "/resource/image//mark_orsen.png"@,
        SenOp::And => "/resource/image//mark_andsen.png"@,
        SenOp::OrO(s) => if s.bit == 0 {
            "/resource/image//mark_offsen.png"@
        } else if s.bit == 2 {
            "/resource/image//mark_orsen.png"@
        } else if s.bit == 1 {
            "/resource/image//mark_orsen_0b01.png"@
        } else {
            "/resource/image//mark_orsen_0b11.png"@
        },
        SenOp::AndO(s) => if s.bit == 0 {
            "/resource/image//mark_offsen.png"@
        } else if s.bit == 2 {
            "/resource/image//mark_andsen.png"@
        } else if s.bit == 1 {
            "/resource/image//mark_andsen_0b01.png"@
        } else {
            "/resource/image//mark_andsen_0b11.png"@
        },
    }
}

impl SenOp {
    /// The cell value forced by `Off`.
    pub const OFF: u8 = 0b00;

    /// The reference mask combined into a cell by `Or` and `And`.
    pub const ON: u8 = 0b10;

    /// Whether `self` is a pending-result token.
    pub open spec fn is_pending(self) -> bool {
        match self {
            SenOp::OrO(_) | SenOp::AndO(_) => true,
            _ => false,
        }
    }

    /// A well-formed operator carries a well-formed payload.
    pub open spec fn wf(self) -> bool {
        match self {
            SenOp::OrO(s) | SenOp::AndO(s) => s.wf(),
            _ => true,
        }
    }

    /// Applies `self` to `sen`, possibly mutating it in place, and returns the
    /// produced pending-result token if there is one.
    pub fn operation(&self, sen: &mut Sen) -> (r: Option<Self>)
        requires
            old(sen).wf(),
            self.wf(),
        ensures
            final(sen).bit == op_bit(*self, old(sen).bit),
            final(sen).wf(),
            r == op_token(*self, old(sen).bit),
    {
        match self {
            Self::Off => {
                sen.bit = Self::OFF;
                None
            },
            Self::On => {
                sen.bit = 0b11;
                None
            },
            Self::Not => {
                proof {
                    let b = old(sen).bit;
                    assert(((!b) & 0b00000011u8) == (3 - (b & 3)) as u8) by (bit_vector);
                    assert(((!b) & 0b00000011u8) < 4) by (bit_vector);
                }
                sen.bit = (!sen.bit) & 0b00000011;
                None
            },
            Self::OrO(out_sen) | Self::AndO(out_sen) => {
                sen.bit = out_sen.bit;
                None
            },
            Self::Or => {
                proof {
                    let b = old(sen).bit;
                    assert(b < 4 ==> (b | 2u8) < 4) by (bit_vector);
                }
                Some(Self::OrO(Sen::new(sen.bit | Self::ON)))
            },
            Self::And => {
                proof {
                    let b = old(sen).bit;
                    assert(b < 4 ==> (b & 2u8) < 4) by (bit_vector);
                }
                Some(Self::AndO(Sen::new(sen.bit & Self::ON)))
            },
        }
    }

    /// The display name of `self`; the pending tokens show their kind, not
    /// their payload.
    pub fn to_string(&self) -> (r: String)
        ensures
            r@ == op_name(*self),
    {
        match self {
            Self::Off => String::from_str("Off"),
            Self::On => String::from_str("On"),
            Self::Not => String::from_str("Not"),
            Self::Or => String::from_str("Or"),
            Self::And => String::from_str("And"),
            Self::OrO(_) => String::from_str("OrO"),
            Self::AndO(_) => String::from_str("AndO"),
        }
    }

    /// The icon path shown for `self`. A pending token whose payload is zero
    /// shows the `off` icon, one whose payload is the reference mask shows
    /// its base operator's icon, and any other payload is spelled out in
    /// binary.
    pub fn to_file_name(&self) -> (r: String)
        requires
            self.wf(),
        ensures
            r@ == op_file_name(*self),
    {
        match self {
            Self::Off => String::from_str("/resource/image//mark_offsen.png"),
            Self::On => String::from_str("/resource/image//mark_onsen.png"),
            Self::Not => String::from_str("/resource/image//mark_notsen.png"),
            Self::Or => String::from_str("/resource/image//mark_orsen.png"),
            Self::And => String::from_str("/resource/image//mark_andsen.png"),
            Self::OrO(sen) => {
                if sen.bit == 0 {
                    String::from_str("/resource/image//mark_offsen.png")
                } else if sen.bit == 2 {
                    String::from_str("/resource/image//mark_orsen.png")
                } else if sen.bit == 1 {
                    String::from_str("/resource/image//mark_orsen_0b01.png")
                } else {
                    String::from_str("/resource/image//mark_orsen_0b11.png")
                }
            },
            Self::AndO(sen) => {
                if sen.bit == 0 {
                    String::from_str("/resource/image//mark_offsen.png")
                } else if sen.bit == 2 {
                    String::from_str("/resource/image//mark_andsen.png")
                } else if sen.bit == 1 {
                    String::from_str("/resource/image//mark_andsen_0b01.png")
                } else {
                    String::from_str("/resource/image//mark_andsen_0b11.png")
                }
            },
        }
    }

    /// Whether `self` is a pending-result token (`OrO` or `AndO`).
    pub fn is_o(&self) -> (r: bool)
        ensures
            r == self.is_pending(),
    {
        match self {
            Self::OrO(_) | Self::AndO(_) => true,
            _ => false,
        }
    }
}

/// The cursor position one step forward of `c` in a circular queue of `len`
/// elements.
pub open spec fn inc_wrap(c: int, len: int) -> int {
    (c + 1) % len
}

/// The cursor position one step back of `c` in a circular queue of `len`
/// elements.
pub open spec fn dec_wrap(c: int, len: int) -> int {
    (c + len - 1) % len
}

/// Stepping back from a valid cursor lands on the previous position, or on
/// the last position when the cursor was at the front.
pub proof fn lemma_dec_wrap(c: int, len: int)
    requires
        0 <= c < len,
    ensures
        dec_wrap(c, len) == if c == 0 {
            len - 1
        } else {
            c - 1
        },
{
    if c == 0 {
        vstd::arithmetic::div_mod::lemma_small_mod((len - 1) as nat, len as nat);
    } else {
        vstd::arithmetic::div_mod::lemma_mod_multiples_vanish(1, c - 1, len);
        vstd::arithmetic::div_mod::lemma_small_mod((c - 1) as nat, len as nat);
    }
}

/// The circular queue of operators with a cursor. The queue is never empty
/// and the cursor always indexes a valid element.
#[derive(Debug)]
pub struct SenOpManager {
    pub sen_op_list: Vec<SenOp>,
    pub sen_index: usize,
}

impl SenOpManager {
    /// Structural invariant: non-empty list, cursor in range.
    pub open spec fn wf(self) -> bool {
        &&& self.sen_op_list@.len() > 0
        &&& self.sen_index < self.sen_op_list@.len()
    }

    /// All operators in the queue carry well-formed payloads.
    pub open spec fn ops_wf(self) -> bool {
        forall|i: int| 0 <= i < self.sen_op_list@.len() ==> (#[trigger] self.sen_op_list@[i]).wf()
    }

    pub open spec fn view(self) -> Seq<SenOp> {
        self.sen_op_list@
    }

    pub fn new(sen_op_list: Vec<SenOp>, default_sen_index: Option<usize>) -> (r: Self)
        requires
            sen_op_list@.len() > 0,
            default_sen_index matches Some(i) ==> i < sen_op_list@.len(),
        ensures
            r@ == sen_op_list@,
            r.sen_index == (match default_sen_index {
                Some(i) => i,
                None => 0usize,
            }),
            r.wf(),
    {
        Self { sen_op_list, sen_index: default_sen_index.unwrap_or(0) }
    }

    /// The element one step behind the cursor, wrapping around.
    pub fn get_back(&self) -> (r: SenOp)
        requires
            self.wf(),
        ensures
            r == self@[dec_wrap(self.sen_index as int, self@.len() as int)],
    {
        let len = self.sen_op_list.len();
        let back = if self.sen_index == 0 {
            len - 1
        } else {
            self.sen_index - 1
        };
        proof {
            lemma_dec_wrap(self.sen_index as int, len as int);
        }
        self.sen_op_list[back]
    }

    /// The element at the cursor.
    pub fn get_top(&self) -> (r: SenOp)
        requires
            self.wf(),
        ensures
            r == self@[self.sen_index as int],
    {
        self.sen_op_list[self.sen_index]
    }

    /// The element one step ahead of the cursor, wrapping around.
    pub fn get_front(&self) -> (r: SenOp)
        requires
            self.wf(),
        ensures
            r == self@[inc_wrap(self.sen_index as int, self@.len() as int)],
    {
        let len = self.sen_op_list.len();
        self.sen_op_list[(self.sen_index + 1) % len]
    }

    /// Moves the cursor one step back, wrapping around.
    pub fn prev(&mut self)
        requires
            old(self).wf(),
        ensures
            final(self)@ == old(self)@,
            final(self).sen_index == dec_wrap(
                old(self).sen_index as int,
                old(self)@.len() as int,
            ),
            final(self).wf(),
    {
        proof {
            lemma_dec_wrap(self.sen_index as int, self.sen_op_list@.len() as int);
        }
        self.sen_index = if self.sen_index == 0 {
            self.sen_op_list.len() - 1
        } else {
            self.sen_index - 1
        };
    }

    /// Moves the cursor one step forward, wrapping around.
    pub fn next(&mut self)
        requires
            old(self).wf(),
        ensures
            final(self)@ == old(self)@,
            final(self).sen_index == inc_wrap(
                old(self).sen_index as int,
                old(self)@.len() as int,
            ),
            final(self).wf(),
    {
        let len = self.sen_op_list.len();
        self.sen_index = (self.sen_index + 1) % len;
    }

    /// Splices `new_op_list` into the queue immediately after the cursor,
    /// preserving its order; the cursor and `new_op_list` are left unchanged.
    pub fn append_at_index(&mut self, new_op_list: &mut Vec<SenOp>)
        requires
            old(self).wf(),
            old(self)@.len() + old(new_op_list)@.len() <= usize::MAX,
        ensures
            final(self)@ == old(self)@.take(old(self).sen_index + 1) + old(new_op_list)@ + old(
                self,
            )@.skip(old(self).sen_index + 1),
            final(self).sen_index == old(self).sen_index,
            final(new_op_list)@ == old(new_op_list)@,
            final(self).wf(),
    {
        let sen_index_next = self.sen_index + 1;
        let mut k: usize = 0;
        while k < new_op_list.len()
            invariant
                k <= new_op_list@.len(),
                new_op_list@ == old(new_op_list)@,
                self.sen_index == old(self).sen_index,
                old(self).sen_index < old(self)@.len(),
                sen_index_next == old(self).sen_index + 1,
                old(self)@.len() + old(new_op_list)@.len() <= usize::MAX,
                self.sen_op_list@.len() == old(self)@.len() + k,
                self.sen_op_list@ == old(self)@.take(sen_index_next as int) + new_op_list@.take(
                    k as int,
                ) + old(self)@.skip(sen_index_next as int),
            decreases new_op_list@.len() - k,
        {
            let op = new_op_list[k];
            self.sen_op_list.insert(sen_index_next + k, op);
            proof {
                assert(self.sen_op_list@ =~= old(self)@.take(sen_index_next as int)
                    + new_op_list@.take(k + 1) + old(self)@.skip(sen_index_next as int));
            }
            k += 1;
        }
        proof {
            assert(new_op_list@.take(k as int) =~= new_op_list@);
            assert(final(self)@ =~= old(self)@.take(old(self).sen_index + 1) + old(new_op_list)@
                + old(self)@.skip(old(self).sen_index + 1));
        }
    }

    /// Whether the element at the cursor is a pending-result token.
    pub fn is_pending_result(&self) -> (r: bool)
        requires
            self.wf(),
        ensures
            r == self@[self.sen_index as int].is_pending(),
    {
        self.sen_op_list[self.sen_index].is_o()
    }

    /// Removes the element at `index`. The cursor is not adjusted here, so
    /// well-formedness may be lost when the last position is removed; `pop`
    /// restores it.
    pub fn remove(&mut self, index: usize)
        requires
            old(self).wf(),
            index < old(self)@.len(),
            old(self)@.len() >= 2,
        ensures
            final(self)@ == old(self)@.remove(index as int),
            final(self).sen_index == old(self).sen_index,
    {
        self.sen_op_list.remove(index);
    }

    /// Removes and returns the element at the cursor, pulling the cursor one
    /// step back when it pointed at the last position. The queue must keep at
    /// least one element, so it may not be emptied.
    pub fn pop(&mut self) -> (r: SenOp)
        requires
            old(self).wf(),
            old(self)@.len() >= 2,
        ensures
            r == old(self)@[old(self).sen_index as int],
            final(self)@ == old(self)@.remove(old(self).sen_index as int),
            final(self).sen_index == (if old(self).sen_index == old(self)@.len() - 1 {
                (old(self).sen_index - 1) as usize
            } else {
                old(self).sen_index
            }),
            final(self).wf(),
    {
        let ret = self.sen_op_list[self.sen_index];
        self.remove(self.sen_index);
        if self.sen_op_list.len() <= self.sen_index {
            self.sen_index -= 1;
        }

        ret
    }
}

/// All cells of a row hold two-bit values.
pub open spec fn row_wf(s: Seq<Sen>) -> bool {
    forall|i: int| 0 <= i < s.len() ==> (#[trigger] s[i]).wf()
}

/// A row of `n` cells, all zero.
pub open spec fn zero_row(n: nat) -> Seq<Sen> {
    Seq::new(n, |i: int| Sen { bit: 0 })
}

/// `sel` records, position by position, what the selector `f` answered for
/// each cell of `row`.
pub open spec fn sel_wf<F: Fn(usize, Sen) -> bool>(f: F, row: Seq<Sen>, sel: Seq<bool>) -> bool {
    &&& sel.len() == row.len()
    &&& forall|j: int|
        0 <= j < row.len() ==> call_ensures(f, (j as usize, row[j]), #[trigger] sel[j])
}

/// The row after `op` is applied to every cell selected by `sel`; unselected
/// cells are unchanged.
pub open spec fn row_apply(op: SenOp, row: Seq<Sen>, sel: Seq<bool>) -> Seq<Sen> {
    Seq::new(
        row.len(),
        |i: int|
            if sel[i] {
                Sen { bit: op_bit(op, row[i].bit) }
            } else {
                row[i]
            },
    )
}

/// The pending-result tokens produced when `op` is applied to every cell of
/// `row` selected by `sel`, in cell order. Only `Or` and `And` produce any.
pub open spec fn row_tokens(op: SenOp, row: Seq<Sen>, sel: Seq<bool>) -> Seq<SenOp>
    decreases row.len(),
{
    if row.len() == 0 {
        Seq::empty()
    } else {
        row_tokens(op, row.drop_last(), sel) + (if sel[row.len() - 1] && op_token(
            op,
            row.last().bit,
        ) is Some {
            seq![op_token(op, row.last().bit)->Some_0]
        } else {
            Seq::empty()
        })
    }
}

/// 4 to the power `n`: the number of values a row of `n` cells can encode.
pub open spec fn pow4(n: nat) -> nat
    decreases n,
{
    if n == 0 {
        1
    } else {
        4 * pow4((n - 1) as nat)
    }
}

/// The numeric encoding of a row: each cell contributes a two-bit field,
/// most-significant cell first.
pub open spec fn encode(s: Seq<Sen>) -> int
    decreases s.len(),
{
    if s.len() == 0 {
        0
    } else {
        encode(s.drop_last()) * 4 + s.last().bit
    }
}

/// A well-formed row encodes to a value below `pow4` of its length.
pub proof fn lemma_encode_bound(s: Seq<Sen>)
    requires
        row_wf(s),
    ensures
        0 <= encode(s) < pow4(s.len()),
    decreases s.len(),
{
    if s.len() > 0 {
        assert(row_wf(s.drop_last()));
        lemma_encode_bound(s.drop_last());
    }
}

/// `pow4` grows monotonically.
pub proof fn lemma_pow4_le(a: nat, b: nat)
    requires
        a <= b,
    ensures
        pow4(a) <= pow4(b),
    decreases b,
{
    if a < b {
        lemma_pow4_le(a, (b - 1) as nat);
    }
}

/// The ordered, fixed-length row of cells that one puzzle instance plays on.
#[derive(Debug)]
pub struct SenManager {
    pub sen_list: Vec<Sen>,
}

impl SenManager {
    /// Every cell of the row holds a two-bit value.
    pub open spec fn wf(self) -> bool {
        row_wf(self.sen_list@)
    }

    pub open spec fn view(self) -> Seq<Sen> {
        self.sen_list@
    }

    /// Builds a row of `n` zeroed cells.
    pub fn with_length(n: usize) -> (r: Self)
        ensures
            r@ == zero_row(n as nat),
            r.wf(),
    {
        let mut sen_list: Vec<Sen> = Vec::new();
        let mut i: usize = 0;
        while i < n
            invariant
                i <= n,
                sen_list@.len() == i,
                forall|j: int| 0 <= j < i ==> (#[trigger] sen_list@[j]).bit == 0,
            decreases n - i,
        {
            sen_list.push(Sen { bit: 0 });
            i += 1;
        }
        proof {
            assert(sen_list@ =~= zero_row(n as nat));
        }
        Self { sen_list }
    }

    /// The number of cells.
    pub fn len(&self) -> (r: usize)
        ensures
            r == self@.len(),
    {
        self.sen_list.len()
    }

    /// The cell at `index`.
    pub fn get(&self, index: usize) -> (r: Sen)
        requires
            index < self@.len(),
        ensures
            r == self@[index as int],
    {
        self.sen_list[index]
    }

    /// Resets every cell to zero.
    pub fn init(&mut self)
        ensures
            final(self)@ == zero_row(old(self)@.len()),
            final(self).wf(),
    {
        let n = self.sen_list.len();
        let mut i: usize = 0;
        while i < n
            invariant
                i <= n,
                self.sen_list@.len() == n,
                forall|j: int| 0 <= j < i ==> (#[trigger] self.sen_list@[j]).bit == 0,
            decreases n - i,
        {
            self.sen_list.set(i, Sen { bit: 0 });
            i += 1;
        }
        proof {
            assert(final(self)@ =~= zero_row(old(self)@.len()));
        }
    }

    /// Makes this row a fresh, zeroed row of the same length as `x`.
    pub fn deep_copy(&mut self, x: &Self)
        ensures
            final(self)@ == zero_row(x@.len()),
            final(self).wf(),
    {
        let mut sen_list: Vec<Sen> = Vec::new();
        let mut i: usize = 0;
        let n = x.sen_list.len();
        while i < n
            invariant
                i <= n,
                sen_list@.len() == i,
                forall|j: int| 0 <= j < i ==> (#[trigger] sen_list@[j]).bit == 0,
            decreases n - i,
        {
            sen_list.push(Sen { bit: 0 });
            i += 1;
        }
        self.sen_list = sen_list;
        proof {
            assert(final(self)@ =~= zero_row(x@.len()));
        }
    }

    /// A copy of this row, for change detection across an apply step.
    pub fn snapshot(&self) -> (r: Self)
        ensures
            r@ == self@,
    {
        let n = self.sen_list.len();
        let mut sen_list: Vec<Sen> = Vec::new();
        let mut i: usize = 0;
        while i < n
            invariant
                i <= n,
                n == self.sen_list@.len(),
                sen_list@.len() == i,
                forall|j: int| 0 <= j < i ==> sen_list@[j] == self.sen_list@[j],
            decreases n - i,
        {
            sen_list.push(self.sen_list[i]);
            i += 1;
        }
        proof {
            assert(sen_list@ =~= self@);
        }
        Self { sen_list }
    }

    /// Structural comparison with another row, cell by cell.
    pub fn same_cells(&self, other: &Self) -> (r: bool)
        ensures
            r == (self@ == other@),
    {
        if self.sen_list.len() != other.sen_list.len() {
            proof {
                assert(self@ != other@);
            }
            return false;
        }
        let n = self.sen_list.len();
        let mut i: usize = 0;
        while i < n
            invariant
                i <= n,
                n == self.sen_list@.len(),
                n == other.sen_list@.len(),
                forall|j: int| 0 <= j < i ==> self.sen_list@[j] == other.sen_list@[j],
            decreases n - i,
        {
            if self.sen_list[i].bit != other.sen_list[i].bit {
                return false;
            }
            i += 1;
        }
        proof {
            assert(self@ =~= other@);
        }
        true
    }

    /// The row's numeric encoding, most-significant cell first, as one
    /// unsigned value parsed from the concatenated two-bit fields. The length
    /// bound keeps the value within `i32`.
    pub fn get_number(&self) -> (r: i32)
        requires
            self.wf(),
            1 <= self@.len() <= 15,
        ensures
            r == encode(self@),
    {
        let n = self.sen_list.len();
        let mut acc: i32 = 0;
        let mut i: usize = 0;
        while i < n
            invariant
                i <= n,
                n == self.sen_list@.len(),
                1 <= n <= 15,
                self.wf(),
                acc == encode(self.sen_list@.take(i as int)),
                0 <= acc < pow4(i as nat),
            decreases n - i,
        {
            proof {
                assert(row_wf(self.sen_list@.take(i + 1)));
                lemma_encode_bound(self.sen_list@.take(i + 1));
                lemma_pow4_le((i + 1) as nat, 15nat);
                assert(pow4(15nat) == 0x40000000) by {
                    reveal_with_fuel(pow4, 16);
                }
                assert(self.sen_list@.take(i + 1).drop_last() =~= self.sen_list@.take(i as int));
                assert(encode(self.sen_list@.take(i + 1)) == acc * 4 + self.sen_list@[i as int].bit);
            }
            acc = acc * 4 + (self.sen_list[i].bit as i32);
            i += 1;
        }
        proof {
            assert(self.sen_list@.take(n as int) =~= self.sen_list@);
        }
        acc
    }

    /// Calls `f` on every cell in order, with its index.
    pub fn for_each<F: Fn(usize, Sen) -> ()>(&self, f: F)
        requires
            forall|j: int| 0 <= j < self@.len() ==> call_requires(f, (j as usize, self@[j])),
    {
        let n = self.sen_list.len();
        let mut i: usize = 0;
        while i < n
            invariant
                i <= n,
                n == self@.len(),
                forall|j: int| 0 <= j < self@.len() ==> call_requires(f, (j as usize, self@[j])),
            decreases n - i,
        {
            let cell = self.sen_list[i];
            proof {
                assert(call_requires(f, (i, self@[i as int])));
                assert(cell == self@[i as int]);
            }
            f(i, cell);
            i += 1;
        }
    }

    /// Applies `sen_op` to every cell the selector `f` picks, mutating those
    /// cells in place, and returns the pending-result tokens produced, in
    /// cell order. The selector is consulted once per cell, with the cell's
    /// pre-application value; some sequence of its answers accounts for the
    /// new row and the returned tokens.
    pub fn operation<F: Fn(usize, Sen) -> bool>(&mut self, sen_op: &SenOp, f: F) -> (r: Vec<
        SenOp,
    >)
        requires
            old(self).wf(),
            sen_op.wf(),
            forall|j: int|
                0 <= j < old(self)@.len() ==> call_requires(f, (j as usize, old(self)@[j])),
        ensures
            final(self)@.len() == old(self)@.len(),
            final(self).wf(),
            exists|sel: Seq<bool>|
                {
                    &&& #[trigger] sel_wf(f, old(self)@, sel)
                    &&& final(self)@ == row_apply(*sen_op, old(self)@, sel)
                    &&& r@ == row_tokens(*sen_op, old(self)@, sel)
                },
    {
        let mut new_op: Vec<SenOp> = Vec::new();
        let ghost mut sel: Seq<bool> = Seq::empty();
        let n = self.sen_list.len();
        let mut i: usize = 0;
        while i < n
            invariant
                i <= n,
                n == self.sen_list@.len(),
                self.sen_list@.len() == old(self)@.len(),
                sel.len() == i,
                sen_op.wf(),
                old(self).wf(),
                forall|j: int|
                    0 <= j < old(self)@.len() ==> call_requires(f, (j as usize, old(self)@[j])),
                forall|j: int| i <= j < n ==> self.sen_list@[j] == old(self)@[j],
                forall|j: int|
                    0 <= j < i ==> call_ensures(f, (j as usize, old(self)@[j]), #[trigger] sel[j]),
                forall|j: int|
                    0 <= j < i ==> #[trigger] self.sen_list@[j] == (if sel[j] {
                        Sen { bit: op_bit(*sen_op, old(self)@[j].bit) }
                    } else {
                        old(self)@[j]
                    }),
                forall|j: int| 0 <= j < i ==> (#[trigger] self.sen_list@[j]).wf(),
                new_op@ == row_tokens(*sen_op, old(self)@.take(i as int), sel),
            decreases n - i,
        {
            let ghost prefix = old(self)@.take(i as int);
            let ghost sel0 = sel;
            let cell = self.sen_list[i];
            proof {
                assert(call_requires(f, (i, old(self)@[i as int])));
                assert((old(self)@[i as int]).wf());
                assert(cell == old(self)@[i as int]);
            }
            let selected = f(i, cell);
            proof {
                sel = sel.push(selected);
            }
            if selected {
                let mut cell = self.sen_list[i];
                let produced = sen_op.operation(&mut cell);
                self.sen_list.set(i, cell);
                if let Some(out_op) = produced {
                    new_op.push(out_op);
                }
            }
            proof {
                let longer = old(self)@.take(i + 1);
                assert(longer.drop_last() =~= prefix);
                assert(longer.last() == old(self)@[i as int]);
                lemma_row_tokens_sel_prefix(*sen_op, prefix, sel, sel0);
                assert(row_tokens(*sen_op, longer, sel) == row_tokens(*sen_op, prefix, sel) + (
                if sel[i as int] && op_token(*sen_op, old(self)@[i as int].bit) is Some {
                    seq![op_token(*sen_op, old(self)@[i as int].bit)->Some_0]
                } else {
                    Seq::empty()
                }));
                assert(new_op@ =~= row_tokens(*sen_op, longer, sel));
            }
            i += 1;
        }
        proof {
            assert(old(self)@.take(n as int) =~= old(self)@);
            assert(sel_wf(f, old(self)@, sel));
            assert(final(self)@ =~= row_apply(*sen_op, old(self)@, sel));
        }
        new_op
    }
}

/// At most one token is produced per cell.
pub proof fn lemma_row_tokens_len(op: SenOp, row: Seq<Sen>, sel: Seq<bool>)
    ensures
        row_tokens(op, row, sel).len() <= row.len(),
    decreases row.len(),
{
    if row.len() > 0 {
        lemma_row_tokens_len(op, row.drop_last(), sel);
    }
}

/// Every produced token is a pending-result token with a well-formed
/// two-bit payload.
pub proof fn lemma_row_tokens_pending(op: SenOp, row: Seq<Sen>, sel: Seq<bool>)
    requires
        row_wf(row),
    ensures
        forall|k: int|
            0 <= k < row_tokens(op, row, sel).len() ==> {
                &&& (#[trigger] row_tokens(op, row, sel)[k]).is_pending()
                &&& row_tokens(op, row, sel)[k].wf()
            },
    decreases row.len(),
{
    if row.len() > 0 {
        assert(row_wf(row.drop_last()));
        lemma_row_tokens_pending(op, row.drop_last(), sel);
        let toks = row_tokens(op, row, sel);
        let pre = row_tokens(op, row.drop_last(), sel);
        let b = row.last().bit;
        assert(b < 4 ==> ((b | 2u8) < 4 && (b & 2u8) < 4)) by (bit_vector);
        assert(row.last().wf());
        assert forall|k: int| 0 <= k < toks.len() implies {
            &&& (#[trigger] toks[k]).is_pending()
            &&& toks[k].wf()
        } by {
            if k < pre.len() {
                assert(pre[k].is_pending() && pre[k].wf());
                assert(toks[k] == pre[k]);
            } else {
                assert(toks[k] == op_token(op, b)->Some_0);
            }
        }
    }
}

/// Applying a well-formed operator keeps every cell well formed.
pub proof fn lemma_row_apply_wf(op: SenOp, row: Seq<Sen>, sel: Seq<bool>)
    requires
        row_wf(row),
        op.wf(),
    ensures
        row_wf(row_apply(op, row, sel)),
{
    let row1 = row_apply(op, row, sel);
    assert forall|i: int| 0 <= i < row1.len() implies (#[trigger] row1[i]).wf() by {
        assert(row[i].wf());
        let b = row[i].bit;
        assert((b & 3) <= 3) by (bit_vector);
        assert(op_bit(op, b) < 4);
    }
}

/// `row_tokens` only reads selector answers for positions of `row`, so two
/// selections that agree there produce the same tokens.
pub proof fn lemma_row_tokens_sel_prefix(op: SenOp, row: Seq<Sen>, sel1: Seq<bool>, sel2: Seq<
    bool,
>)
    requires
        forall|j: int| 0 <= j < row.len() ==> sel1[j] == sel2[j],
    ensures
        row_tokens(op, row, sel1) == row_tokens(op, row, sel2),
    decreases row.len(),
{
    if row.len() > 0 {
        lemma_row_tokens_sel_prefix(op, row.drop_last(), sel1, sel2);
    }
}

} // verus!
