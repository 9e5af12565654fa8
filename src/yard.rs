//! A yard of crate stacks: parsed from a drawing, rearranged by relocations
//! under two policies, and read out by the labels on top.

use vstd::prelude::*;
use crate::text::{chars_of, chars_equal, split_chars, views, split_on, parse_number, numeral_value, is_numeral, string_views};

verus! {

/// Why a diagram row or a relocation was refused.
#[derive(Clone, Copy, Debug, PartialEq, Eq, Structural)]
pub enum YardError {
    /// A field of a diagram row is neither `[X]` nor three spaces, or holds
    /// an item for a stack beyond the yard.
    MalformedRow,
    /// A relocation names a stack that the yard does not have.
    InvalidIndex,
    /// A relocation names the same stack as source and destination.
    SameStack,
    /// A relocation asks for more items than the source stack holds.
    InsufficientItems,
    /// A relocation command is not `move <count> from <from> to <to>`.
    MalformedCommand,
    /// The text has no drawing with a numbering row closed by an empty line.
    MissingDiagram,
}

/// One stack of crates: its labels from the bottom (first) to the top (last).
#[derive(Debug)]
pub struct CrateStack(pub Vec<char>);

impl View for CrateStack {
    type V = Seq<char>;

    open spec fn view(&self) -> Seq<char> {
        self.0@
    }
}

/// The last `k` labels of `s`: the top `k` crates, bottom first.
pub open spec fn top_of(s: Seq<char>, k: int) -> Seq<char> {
    s.subrange(s.len() - k, s.len() as int)
}

/// What remains of `s` once its top `k` crates are gone.
pub open spec fn below_top(s: Seq<char>, k: int) -> Seq<char> {
    s.subrange(0, s.len() - k)
}

impl CrateStack {
    /// An empty stack.
    pub fn new() -> (r: CrateStack)
        ensures
            r@ == Seq::<char>::empty(),
    {
        CrateStack(Vec::new())
    }

    /// Moves `n` crates from this stack to `other`, one at a time, so that
    /// they land in reverse order.
    pub fn move_crates(&mut self, other: &mut Self, n: usize) -> (r: Result<(), YardError>)
        ensures
            old(self)@.len() < n ==> r == Err::<(), YardError>(YardError::InsufficientItems)
                && final(self)@ == old(self)@ && final(other)@ == old(other)@,
            old(self)@.len() >= n ==> r is Ok
                && final(self)@ == below_top(old(self)@, n as int)
                && final(other)@ == old(other)@ + top_of(old(self)@, n as int).reverse(),
    {
        if self.0.len() < n {
            return Err(YardError::InsufficientItems);
        }
        let ghost s0 = old(self)@;
        let ghost o0 = old(other)@;
        let ghost len = s0.len();
        let mut i: usize = 0;
        while i < n
            invariant
                i <= n <= len,
                len == s0.len(),
                self@ == below_top(s0, i as int),
                other@ == o0 + top_of(s0, i as int).reverse(),
            decreases n - i,
        {
            let c = self.0.pop().unwrap();
            assert(c == s0[len - i - 1]);
            other.0.push(c);
            i += 1;
            assert(self@ =~= below_top(s0, i as int));
            assert(top_of(s0, i as int).reverse() =~= top_of(s0, i - 1).reverse().push(c));
            assert(other@ =~= o0 + top_of(s0, i as int).reverse());
        }
        Ok(())
    }
}


/// A command to move `quantity` crates from stack `origin` to stack
/// `destination`, both counted from 0.
#[derive(Clone, Copy, Debug, PartialEq, Eq, Structural)]
pub struct Movement {
    pub origin: usize,
    pub destination: usize,
    pub quantity: usize,
}

/// The error that `m` meets on a yard of stacks `v`, if any: indices are
/// checked first, then that the stacks differ, then the source's size.
pub open spec fn movement_error(v: Seq<Seq<char>>, m: Movement) -> Option<YardError> {
    if m.origin >= v.len() || m.destination >= v.len() {
        Some(YardError::InvalidIndex)
    } else if m.origin == m.destination {
        Some(YardError::SameStack)
    } else if m.quantity > v[m.origin as int].len() {
        Some(YardError::InsufficientItems)
    } else {
        None
    }
}

/// The yard `v` after `m`, crates moved one at a time.
pub open spec fn moved_singly(v: Seq<Seq<char>>, m: Movement) -> Seq<Seq<char>> {
    let from = v[m.origin as int];
    let k = m.quantity as int;
    v.update(m.origin as int, below_top(from, k)).update(
        m.destination as int,
        v[m.destination as int] + top_of(from, k).reverse(),
    )
}

/// The yard `v` after `m`, crates moved as one block.
pub open spec fn moved_as_block(v: Seq<Seq<char>>, m: Movement) -> Seq<Seq<char>> {
    let from = v[m.origin as int];
    let k = m.quantity as int;
    v.update(m.origin as int, below_top(from, k)).update(
        m.destination as int,
        v[m.destination as int] + top_of(from, k),
    )
}

/// The number of crates in the yard `v`.
pub open spec fn total_items(v: Seq<Seq<char>>) -> int
    decreases v.len(),
{
    if v.len() == 0 {
        0
    } else {
        total_items(v.drop_last()) + v.last().len()
    }
}

proof fn lemma_total_update(v: Seq<Seq<char>>, i: int, x: Seq<char>)
    requires
        0 <= i < v.len(),
    ensures
        total_items(v.update(i, x)) == total_items(v) - v[i].len() + x.len(),
    decreases v.len(),
{
    let w = v.update(i, x);
    if i < v.len() - 1 {
        assert(w.drop_last() =~= v.drop_last().update(i, x));
        lemma_total_update(v.drop_last(), i, x);
    } else {
        assert(w.drop_last() =~= v.drop_last());
    }
}

/// A successful relocation, under either policy, takes `quantity` crates
/// off the source, puts the same crates (as a multiset of labels) on the
/// destination, and leaves the number of crates in the yard unchanged.
pub proof fn lemma_relocation_conserves(v: Seq<Seq<char>>, m: Movement)
    requires
        movement_error(v, m) is None,
    ensures
        ({
            let k = m.quantity as int;
            let moved = top_of(v[m.origin as int], k);
            let s = moved_singly(v, m);
            let b = moved_as_block(v, m);
            &&& s[m.origin as int].len() == v[m.origin as int].len() - k
            &&& b[m.origin as int].len() == v[m.origin as int].len() - k
            &&& s[m.destination as int] == v[m.destination as int] + moved.reverse()
            &&& b[m.destination as int] == v[m.destination as int] + moved
            &&& moved.reverse().to_multiset() == moved.to_multiset()
            &&& total_items(s) == total_items(v)
            &&& total_items(b) == total_items(v)
        }),
{
    let o = m.origin as int;
    let d = m.destination as int;
    let k = m.quantity as int;
    let moved = top_of(v[o], k);
    moved.lemma_reverse_to_multiset();
    let v1 = v.update(o, below_top(v[o], k));
    lemma_total_update(v, o, below_top(v[o], k));
    lemma_total_update(v1, d, v[d] + moved.reverse());
    lemma_total_update(v1, d, v[d] + moved);
}

/// The stacks of a yard, indexed from 0; their number never changes.
#[derive(Debug)]
pub struct Stacks {
    pub stacks: Vec<CrateStack>,
}

impl View for Stacks {
    type V = Seq<Seq<char>>;

    open spec fn view(&self) -> Seq<Seq<char>> {
        stack_views(self.stacks@)
    }
}

/// The label sequences of the stacks `s`.
pub open spec fn stack_views(s: Seq<CrateStack>) -> Seq<Seq<char>> {
    s.map_values(|c: CrateStack| c@)
}

impl Stacks {
    /// A yard of `n` empty stacks.
    pub fn with_capacity(n: usize) -> (r: Stacks)
        ensures
            r@ == Seq::new(n as nat, |i: int| Seq::<char>::empty()),
    {
        let mut stacks: Vec<CrateStack> = Vec::new();
        let mut i: usize = 0;
        while i < n
            invariant
                i <= n,
                stacks@.len() == i,
                forall|j: int| 0 <= j < i ==> (#[trigger] stacks@[j])@ == Seq::<char>::empty(),
            decreases n - i,
        {
            let e = CrateStack::new();
            let ghost prev = stacks@;
            stacks.push(e);
            assert(stacks@ == prev.push(e));
            assert(stacks@[i as int]@ == Seq::<char>::empty());
            i += 1;
        }
        assert(stack_views(stacks@) =~= Seq::new(n as nat, |j: int| Seq::<char>::empty()));
        Stacks { stacks }
    }

    /// Checks `m` against this yard, and if it can be carried out, takes the
    /// source and destination stacks out of the yard (leaving empty stacks
    /// in their places).
    fn take_pair(&mut self, m: &Movement) -> (r: Result<(CrateStack, CrateStack), YardError>)
        ensures
            match movement_error(old(self)@, *m) {
                Some(e) => r == Err::<(CrateStack, CrateStack), YardError>(e) && final(self)@ == old(self)@,
                None => r matches Ok((a, b)) && a@ == old(self)@[m.origin as int]
                    && b@ == old(self)@[m.destination as int]
                    && final(self)@ == old(self)@.update(m.origin as int, Seq::empty()).update(
                        m.destination as int, Seq::empty()),
            },
    {
        let n = self.stacks.len();
        if m.origin >= n || m.destination >= n {
            return Err(YardError::InvalidIndex);
        }
        if m.origin == m.destination {
            return Err(YardError::SameStack);
        }
        if self.stacks[m.origin].0.len() < m.quantity {
            return Err(YardError::InsufficientItems);
        }
        let mut from = CrateStack::new();
        let mut to = CrateStack::new();
        std::mem::swap(&mut from, &mut self.stacks[m.origin]);
        std::mem::swap(&mut to, &mut self.stacks[m.destination]);
        assert(self@ =~= old(self)@.update(m.origin as int, Seq::empty()).update(
            m.destination as int, Seq::empty()));
        Ok((from, to))
    }

    /// Puts `from` and `to` back as stacks `m.origin` and `m.destination`.
    fn put_pair(&mut self, m: &Movement, from: CrateStack, to: CrateStack)
        requires
            m.origin < old(self)@.len(),
            m.destination < old(self)@.len(),
        ensures
            final(self)@ == old(self)@.update(m.origin as int, from@).update(m.destination as int, to@),
    {
        self.stacks.set(m.origin, from);
        self.stacks.set(m.destination, to);
        assert(self@ =~= old(self)@.update(m.origin as int, from@).update(m.destination as int, to@));
    }

    /// Carries out `movement` one crate at a time: each step pops the top of
    /// the source and pushes it on the destination, so the moved crates end
    /// up in reverse order. A refused movement leaves the yard unchanged.
    pub fn move_crates_individually(&mut self, movement: &Movement) -> (r: Result<(), YardError>)
        ensures
            match movement_error(old(self)@, *movement) {
                Some(e) => r == Err::<(), YardError>(e) && final(self)@ == old(self)@,
                None => r is Ok && final(self)@ == moved_singly(old(self)@, *movement),
            },
            r is Ok ==> top_of(final(self)@[movement.destination as int], movement.quantity as int)
                == top_of(old(self)@[movement.origin as int], movement.quantity as int).reverse(),
            r is Ok ==> total_items(final(self)@) == total_items(old(self)@),
    {
        let (mut from, mut to) = self.take_pair(movement)?;
        let _ = from.move_crates(&mut to, movement.quantity);
        self.put_pair(movement, from, to);
        proof {
            let v = old(self)@;
            assert(self@ =~= moved_singly(v, *movement));
            lemma_relocation_conserves(v, *movement);
            let d = v[movement.destination as int];
            let moved = top_of(v[movement.origin as int], movement.quantity as int);
            assert(top_of(d + moved.reverse(), movement.quantity as int) =~= moved.reverse());
        }
        Ok(())
    }

    /// Carries out `movement` as one block: the moved crates keep their
    /// order. A refused movement leaves the yard unchanged.
    pub fn move_crates_together(&mut self, movement: &Movement) -> (r: Result<(), YardError>)
        ensures
            match movement_error(old(self)@, *movement) {
                Some(e) => r == Err::<(), YardError>(e) && final(self)@ == old(self)@,
                None => r is Ok && final(self)@ == moved_as_block(old(self)@, *movement),
            },
            r is Ok ==> top_of(final(self)@[movement.destination as int], movement.quantity as int)
                == top_of(old(self)@[movement.origin as int], movement.quantity as int),
            r is Ok ==> total_items(final(self)@) == total_items(old(self)@),
    {
        let (mut from, mut to) = self.take_pair(movement)?;
        let mut held = CrateStack::new();
        let _ = from.move_crates(&mut held, movement.quantity);
        let _ = held.move_crates(&mut to, movement.quantity);
        self.put_pair(movement, from, to);
        proof {
            let v = old(self)@;
            let moved = top_of(v[movement.origin as int], movement.quantity as int);
            assert(top_of(moved.reverse(), movement.quantity as int) =~= moved.reverse());
            assert(moved.reverse().reverse() =~= moved);
            assert(self@ =~= moved_as_block(v, *movement));
            lemma_relocation_conserves(v, *movement);
            let d = v[movement.destination as int];
            assert(top_of(d + moved, movement.quantity as int) =~= moved);
        }
        Ok(())
    }
}


/// How many 4-character fields a diagram row of `len` characters has.
pub open spec fn field_count(len: int) -> int {
    (len + 3) / 4
}

/// The item that field `c` of `line` holds, if any.
pub open spec fn field_item(line: Seq<char>, c: int) -> Option<char> {
    if line[4 * c] == '[' {
        Some(line[4 * c + 1])
    } else {
        None
    }
}

/// Field `c` of `line` is complete and is `[X]` or three spaces.
pub open spec fn field_valid(line: Seq<char>, c: int) -> bool {
    &&& 4 * c + 3 <= line.len()
    &&& {
        ||| line[4 * c] == '[' && line[4 * c + 2] == ']'
        ||| line[4 * c] == ' ' && line[4 * c + 1] == ' ' && line[4 * c + 2] == ' '
    }
}

/// Every field of `line` is valid, and items stand only over the first `n`
/// stacks.
pub open spec fn row_fits(line: Seq<char>, n: int) -> bool {
    forall|c: int|
        0 <= c < field_count(line.len() as int) ==> {
            &&& #[trigger] field_valid(line, c)
            &&& field_item(line, c) is Some ==> c < n
        }
}

/// The yard `v` with the items of row `line` pushed on their stacks.
pub open spec fn with_row(v: Seq<Seq<char>>, line: Seq<char>) -> Seq<Seq<char>> {
    Seq::new(
        v.len(),
        |c: int|
            if c < field_count(line.len() as int) && field_item(line, c) is Some {
                v[c].push(field_item(line, c)->0)
            } else {
                v[c]
            },
    )
}

/// The rows of a diagram fit a yard of `n` stacks.
pub open spec fn diagram_fits(rows: Seq<Seq<char>>, n: int) -> bool {
    forall|i: int| 0 <= i < rows.len() ==> row_fits(#[trigger] rows[i], n)
}

/// The yard of `n` stacks that the diagram `rows` (topmost row first) draws:
/// the bottom row is laid down first.
pub open spec fn diagram_view(rows: Seq<Seq<char>>, n: nat) -> Seq<Seq<char>>
    decreases rows.len(),
{
    if rows.len() == 0 {
        Seq::new(n, |i: int| Seq::<char>::empty())
    } else {
        with_row(diagram_view(rows.drop_first(), n), rows.first())
    }
}

proof fn lemma_diagram_len(rows: Seq<Seq<char>>, n: nat)
    ensures
        diagram_view(rows, n).len() == n,
    decreases rows.len(),
{
    if rows.len() > 0 {
        lemma_diagram_len(rows.drop_first(), n);
    }
}


/// The label on top of each stack of `v`, in stack order.
pub open spec fn tops(v: Seq<Seq<char>>) -> Seq<Option<char>> {
    Seq::new(v.len(), |i: int| if v[i].len() == 0 { None } else { Some(v[i].last()) })
}

/// `tops(v)` with a blank for each empty stack.
pub open spec fn top_chars(v: Seq<Seq<char>>) -> Seq<char> {
    Seq::new(v.len(), |i: int| if v[i].len() == 0 { ' ' } else { v[i].last() })
}

/// Relies on std's `FromIterator<&char>` for `String`: the string holds the
/// given characters in order.
#[verifier::external_body]
fn string_of(chars: &Vec<char>) -> (r: String)
    ensures
        r@ == chars@,
{
    chars.iter().collect()
}

impl Stacks {
    /// Pushes the items of the diagram row `line` on their stacks. The row
    /// is checked whole before any stack changes.
    pub fn parse_row(&mut self, line: &str) -> (r: Result<(), YardError>)
        ensures
            r is Ok <==> row_fits(line@, old(self)@.len() as int),
            r is Ok ==> final(self)@ == with_row(old(self)@, line@),
            r is Err ==> r == Err::<(), YardError>(YardError::MalformedRow) && final(self)@ == old(self)@,
    {
        let chars = chars_of(line);
        let len = chars.len();
        let n = self.stacks.len();
        let count: usize = if len % 4 == 0 { len / 4 } else { len / 4 + 1 };
        assert(count == field_count(len as int));
        let mut c: usize = 0;
        while c < count
            invariant
                len == chars@.len(),
                chars@ == line@,
                n == self@.len(),
                count == field_count(len as int),
                c <= count,
                forall|k: int|
                    0 <= k < c ==> {
                        &&& #[trigger] field_valid(line@, k)
                        &&& field_item(line@, k) is Some ==> k < n
                    },
            decreases count - c,
        {
            let i = 4 * c;
            if len - i < 3 {
                assert(!field_valid(line@, c as int));
                assert(!row_fits(line@, n as int));
                return Err(YardError::MalformedRow);
            }
            let a = chars[i];
            let b = chars[i + 1];
            let d = chars[i + 2];
            let valid = (a == '[' && d == ']') || (a == ' ' && b == ' ' && d == ' ');
            if !valid || (a == '[' && c >= n) {
                assert(!(field_valid(line@, c as int) && (field_item(line@, c as int) is Some ==> c < n)));
                assert(!row_fits(line@, n as int));
                return Err(YardError::MalformedRow);
            }
            c += 1;
        }
        let ghost v0 = self@;
        let mut c: usize = 0;
        while c < count
            invariant
                len == chars@.len(),
                chars@ == line@,
                n == v0.len(),
                count == field_count(len as int),
                row_fits(line@, n as int),
                c <= count,
                self@.len() == n,
                forall|k: int| 0 <= k < n ==> #[trigger] self@[k] == (if k < c { with_row(v0, line@)[k] } else { v0[k] }),
            decreases count - c,
        {
            let i = 4 * c;
            assert(field_valid(line@, c as int));
            let ghost before = self@;
            if chars[i] == '[' {
                let label = chars[i + 1];
                assert(c < n);
                assert(with_row(v0, line@)[c as int] == v0[c as int].push(label));
                assert(before[c as int] == v0[c as int]);
                let mut stack = CrateStack::new();
                std::mem::swap(&mut stack, &mut self.stacks[c]);
                assert(stack@ == v0[c as int]);
                stack.0.push(label);
                let ghost pushed = stack@;
                self.stacks.set(c, stack);
                assert(pushed == v0[c as int].push(label));
                assert(self@ =~= before.update(c as int, v0[c as int].push(label)));
            } else {
                assert(c < n ==> with_row(v0, line@)[c as int] == v0[c as int]);
            }
            c += 1;
        }
        assert(self@ =~= with_row(v0, line@));
        Ok(())
    }

    /// The yard of `stack_count` stacks drawn by `rows`, given top row first
    /// as drawn; each stack lists its crates from the bottom up.
    pub fn parse_diagram(rows: &Vec<String>, stack_count: usize) -> (r: Result<Stacks, YardError>)
        ensures
            r is Ok <==> diagram_fits(string_views(rows@), stack_count as int),
            r matches Ok(y) ==> y@ == diagram_view(string_views(rows@), stack_count as nat),
            r is Err ==> r == Err::<Stacks, YardError>(YardError::MalformedRow),
    {
        let ghost rs = string_views(rows@);
        let mut yard = Stacks::with_capacity(stack_count);
        let mut i: usize = rows.len();
        assert(rs.subrange(i as int, rs.len() as int) =~= Seq::<Seq<char>>::empty());
        while i > 0
            invariant
                i <= rows@.len(),
                rs == string_views(rows@),
                yard@ == diagram_view(rs.subrange(i as int, rs.len() as int), stack_count as nat),
                forall|k: int| i <= k < rs.len() ==> row_fits(#[trigger] rs[k], stack_count as int),
            decreases i,
        {
            let ghost tail = rs.subrange(i as int, rs.len() as int);
            proof {
                lemma_diagram_len(tail, stack_count as nat);
            }
            let row = rows[i - 1].as_str();
            match yard.parse_row(row) {
                Ok(()) => {},
                Err(e) => {
                    assert(!row_fits(rs[i - 1], stack_count as int));
                    return Err(e);
                },
            }
            i -= 1;
            assert(rs.subrange(i as int, rs.len() as int).drop_first() =~= tail);
        }
        assert(rs.subrange(0, rs.len() as int) =~= rs);
        Ok(yard)
    }

    /// The label on top of each stack, in stack order; `None` for an empty
    /// stack.
    pub fn top_labels(&self) -> (r: Vec<Option<char>>)
        ensures
            r@ == tops(self@),
    {
        let mut r: Vec<Option<char>> = Vec::new();
        let mut i: usize = 0;
        while i < self.stacks.len()
            invariant
                i <= self@.len(),
                r@ =~= tops(self@).subrange(0, i as int),
            decreases self@.len() - i,
        {
            let s = &self.stacks[i].0;
            if s.len() == 0 {
                r.push(None);
            } else {
                r.push(Some(s[s.len() - 1]));
            }
            i += 1;
        }
        r
    }

    /// The labels on top of the stacks as one string, a blank standing for
    /// each empty stack.
    pub fn top_crates(&self) -> (r: String)
        ensures
            r@ == top_chars(self@),
    {
        let mut chars: Vec<char> = Vec::new();
        let mut i: usize = 0;
        while i < self.stacks.len()
            invariant
                i <= self@.len(),
                chars@ =~= top_chars(self@).subrange(0, i as int),
            decreases self@.len() - i,
        {
            let s = &self.stacks[i].0;
            if s.len() == 0 {
                chars.push(' ');
            } else {
                chars.push(s[s.len() - 1]);
            }
            i += 1;
        }
        string_of(&chars)
    }
}


/// The numbers of a relocation command `move <count> from <from> to <to>`,
/// as written (stacks counted from 1), if `line` has that form.
pub open spec fn command_numbers(line: Seq<char>) -> Option<(int, int, int)> {
    let w = split_on(line, ' ');
    if w.len() == 6 && w[0] == seq!['m', 'o', 'v', 'e'] && w[2] == seq!['f', 'r', 'o', 'm']
        && w[4] == seq!['t', 'o'] && is_numeral(w[1]) && is_numeral(w[3]) && is_numeral(w[5]) {
        Some((numeral_value(w[1]), numeral_value(w[3]), numeral_value(w[5])))
    } else {
        None
    }
}

/// What parsing the relocation command `line` gives: the movement, with
/// stacks counted from 0, or the error.
pub open spec fn command_result(line: Seq<char>) -> Result<Movement, YardError> {
    match command_numbers(line) {
        None => Err(YardError::MalformedCommand),
        Some((q, o, d)) => if q > usize::MAX || o > usize::MAX || d > usize::MAX {
            Err(YardError::MalformedCommand)
        } else if o == d {
            Err(YardError::SameStack)
        } else if o == 0 || d == 0 {
            Err(YardError::MalformedCommand)
        } else {
            Ok(Movement { origin: (o - 1) as usize, destination: (d - 1) as usize, quantity: q as usize })
        },
    }
}

/// The number written by `w` if it fits in a `usize`.
fn parse_index(w: &Vec<char>) -> (r: Option<usize>)
    ensures
        r is Some <==> is_numeral(w@) && numeral_value(w@) <= usize::MAX,
        r matches Some(v) ==> v == numeral_value(w@),
{
    match parse_number(w) {
        Some(v) => if v <= usize::MAX as u64 {
            Some(v as usize)
        } else {
            None
        },
        None => None,
    }
}

impl Movement {
    /// Parses `move <count> from <from> to <to>`, where the stacks are
    /// counted from 1 in the text and from 0 in the result.
    pub fn parse(line: &str) -> (r: Result<Movement, YardError>)
        ensures
            r == command_result(line@),
    {
        let chars = chars_of(line);
        let w = split_chars(&chars, ' ');
        proof {
            assert(views(w@).len() == w@.len());
        }
        if w.len() != 6 {
            return Err(YardError::MalformedCommand);
        }
        assert(views(w@)[0] == w@[0]@);
        assert(views(w@)[1] == w@[1]@);
        assert(views(w@)[2] == w@[2]@);
        assert(views(w@)[3] == w@[3]@);
        assert(views(w@)[4] == w@[4]@);
        assert(views(w@)[5] == w@[5]@);
        let words_ok = chars_equal(&w[0], &vec!['m', 'o', 'v', 'e'])
            && chars_equal(&w[2], &vec!['f', 'r', 'o', 'm'])
            && chars_equal(&w[4], &vec!['t', 'o']);
        assert(words_ok == (w@[0]@ == seq!['m', 'o', 'v', 'e'] && w@[2]@ == seq!['f', 'r', 'o', 'm']
            && w@[4]@ == seq!['t', 'o']));
        if !words_ok {
            return Err(YardError::MalformedCommand);
        }
        let q = parse_index(&w[1]);
        let o = parse_index(&w[3]);
        let d = parse_index(&w[5]);
        match (q, o, d) {
            (Some(q), Some(o), Some(d)) => {
                if o == d {
                    Err(YardError::SameStack)
                } else if o == 0 || d == 0 {
                    Err(YardError::MalformedCommand)
                } else {
                    Ok(Movement { origin: o - 1, destination: d - 1, quantity: q })
                }
            },
            _ => Err(YardError::MalformedCommand),
        }
    }
}

/// The yard `v` after the relocation commands `cmds`, applied in order
/// one crate at a time (`together` false) or as blocks (`together` true);
/// the first error stops them.
pub open spec fn apply_commands(v: Seq<Seq<char>>, cmds: Seq<Seq<char>>, together: bool) -> Result<Seq<Seq<char>>, YardError>
    decreases cmds.len(),
{
    if cmds.len() == 0 {
        Ok(v)
    } else {
        match apply_commands(v, cmds.drop_last(), together) {
            Err(e) => Err(e),
            Ok(w) => match command_result(cmds.last()) {
                Err(e) => Err(e),
                Ok(m) => match movement_error(w, m) {
                    Some(e) => Err(e),
                    None => Ok(if together { moved_as_block(w, m) } else { moved_singly(w, m) }),
                },
            },
        }
    }
}

proof fn lemma_apply_commands_err(v: Seq<Seq<char>>, cmds: Seq<Seq<char>>, together: bool, i: int, e: YardError)
    requires
        0 <= i <= cmds.len(),
        apply_commands(v, cmds.subrange(0, i), together) == Err::<Seq<Seq<char>>, YardError>(e),
    ensures
        apply_commands(v, cmds, together) == Err::<Seq<Seq<char>>, YardError>(e),
    decreases cmds.len() - i,
{
    if i < cmds.len() {
        assert(cmds.subrange(0, i + 1).drop_last() =~= cmds.subrange(0, i));
        lemma_apply_commands_err(v, cmds, together, i + 1, e);
    } else {
        assert(cmds.subrange(0, i) =~= cmds);
    }
}

/// The index of the first empty line of `lines`, if there is one.
pub open spec fn first_blank(lines: Seq<Seq<char>>) -> Option<int> {
    if exists|b: int| 0 <= b < lines.len() && (#[trigger] lines[b]).len() == 0 {
        Some(choose|b: int| 0 <= b < lines.len() && (#[trigger] lines[b]).len() == 0
            && forall|k: int| 0 <= k < b ==> (#[trigger] lines[k]).len() != 0)
    } else {
        None
    }
}

/// What the puzzle text `lines` leads to: a drawing whose last row numbers
/// the stacks (a row of width `w` numbers `w / 4 + 1` of them), an empty
/// line, then relocation commands; the result is the labels on top.
pub open spec fn rearranged(lines: Seq<Seq<char>>, together: bool) -> Result<Seq<char>, YardError> {
    match first_blank(lines) {
        None => Err(YardError::MissingDiagram),
        Some(b) => if b == 0 {
            Err(YardError::MissingDiagram)
        } else {
            let n = lines[b - 1].len() / 4 + 1;
            let rows = lines.subrange(0, b - 1);
            if !diagram_fits(rows, n as int) {
                Err(YardError::MalformedRow)
            } else {
                match apply_commands(diagram_view(rows, n as nat), lines.subrange(b + 1, lines.len() as int), together) {
                    Err(e) => Err(e),
                    Ok(w) => Ok(top_chars(w)),
                }
            }
        },
    }
}

/// Runs the puzzle text `lines`: builds the yard from the drawing, applies
/// the commands after the empty line one crate at a time (`together` false)
/// or as blocks (`together` true), and returns the labels on top.
pub fn rearrange(lines: &Vec<String>, together: bool) -> (r: Result<String, YardError>)
    ensures
        match rearranged(string_views(lines@), together) {
            Ok(tops) => r matches Ok(s) && s@ == tops,
            Err(e) => r == Err::<String, YardError>(e),
        },
{
    let ghost ls = string_views(lines@);
    let mut b: usize = 0;
    while b < lines.len() && lines[b].as_str().unicode_len() != 0
        invariant
            ls == string_views(lines@),
            b <= lines@.len(),
            forall|k: int| 0 <= k < b ==> (#[trigger] ls[k]).len() != 0,
        decreases lines@.len() - b,
    {
        b += 1;
    }
    if b == lines.len() {
        assert(first_blank(ls) is None);
        return Err(YardError::MissingDiagram);
    }
    proof {
        assert(ls[b as int].len() == 0);
        let c = first_blank(ls)->0;
        assert(first_blank(ls) is Some);
        if c < b {
        } else if c > b {
            assert(ls[b as int].len() != 0);
        }
        assert(c == b);
    }
    if b == 0 {
        return Err(YardError::MissingDiagram);
    }
    let n = lines[b - 1].as_str().unicode_len() / 4 + 1;
    assert(n == ls[b - 1].len() / 4 + 1);
    let mut rows: Vec<String> = Vec::new();
    let mut i: usize = 0;
    while i < b - 1
        invariant
            i <= b - 1,
            b <= lines@.len(),
            rows@.len() == i,
            forall|k: int| 0 <= k < i ==> (#[trigger] rows@[k])@ == lines@[k]@,
        decreases b - 1 - i,
    {
        rows.push(lines[i].clone());
        i += 1;
    }
    assert(string_views(rows@) =~= ls.subrange(0, b - 1));
    let mut yard = match Stacks::parse_diagram(&rows, n) {
        Ok(y) => y,
        Err(e) => return Err(e),
    };
    let ghost v0 = yard@;
    let ghost cmds = ls.subrange(b + 1, ls.len() as int);
    let mut k: usize = b + 1;
    assert(cmds.subrange(0, 0) =~= Seq::<Seq<char>>::empty());
    while k < lines.len()
        invariant
            ls == string_views(lines@),
            cmds == ls.subrange(b + 1, ls.len() as int),
            b + 1 <= k <= lines@.len(),
            b >= 1,
            first_blank(ls) == Some(b as int),
            n == ls[b - 1].len() / 4 + 1,
            diagram_fits(ls.subrange(0, b - 1), n as int),
            v0 == diagram_view(ls.subrange(0, b - 1), n as nat),
            apply_commands(v0, cmds.subrange(0, k - b - 1), together) == Ok::<Seq<Seq<char>>, YardError>(yard@),
        decreases lines@.len() - k,
    {
        let j: usize = k - b - 1;
        proof {
            assert(cmds.subrange(0, j + 1).drop_last() =~= cmds.subrange(0, j as int));
            assert(cmds.subrange(0, j + 1).last() == lines@[k as int]@);
        }
        let m = match Movement::parse(lines[k].as_str()) {
            Ok(m) => m,
            Err(e) => {
                proof {
                    lemma_apply_commands_err(v0, cmds, together, j + 1, e);
                }
                return Err(e);
            },
        };
        let step = if together {
            yard.move_crates_together(&m)
        } else {
            yard.move_crates_individually(&m)
        };
        match step {
            Ok(()) => {},
            Err(e) => {
                proof {
                    lemma_apply_commands_err(v0, cmds, together, j + 1, e);
                }
                return Err(e);
            },
        }
        k += 1;
    }
    assert(cmds.subrange(0, k - b - 1) =~= cmds);
    Ok(yard.top_crates())
}

} // verus!
