//! The interpreter's environment: a stack of scope frames whose bindings
//! track moves and borrows.
use vstd::prelude::*;
use crate::span::Span;
use crate::value::Value;
use crate::error::RuntimeError;
use crate::text::{str_eq, str_lt, seq_lt, lemma_lt_irreflexive, lemma_lt_transitive, lemma_seq_lt_total};

verus! {

/// The kind of scope frame.
#[derive(Debug, Clone, Copy, PartialEq, Eq, Structural)]
pub enum FrameKind {
    Module,
    Function,
    Let,
    Match,
}

/// A binding slot, tracking ownership and borrow state.
#[derive(Debug)]
pub struct Slot {
    pub value: Value,
    pub moved: bool,
    pub moved_at: Option<Span>,
    pub immutable_borrows: u32,
    pub mutable_borrow: bool,
}

/// A single scope frame. A name bound twice in one frame refers to its
/// latest binding.
#[derive(Debug)]
pub struct Frame {
    pub bindings: Vec<(String, Slot)>,
    pub kind: FrameKind,
}

/// Abstract frame: the names it binds and its kind.
pub struct SpecFrame {
    pub bindings: Map<Seq<char>, Slot>,
    pub kind: FrameKind,
}

/// The map a frame's binding list stands for: later entries win.
pub open spec fn bindings_map(b: Seq<(String, Slot)>) -> Map<Seq<char>, Slot>
    decreases b.len(),
{
    if b.len() == 0 {
        Map::empty()
    } else {
        bindings_map(b.drop_last()).insert(b.last().0@, b.last().1)
    }
}

pub open spec fn frame_view(f: Frame) -> SpecFrame {
    SpecFrame { bindings: bindings_map(f.bindings@), kind: f.kind }
}

pub open spec fn frames_view(fs: Seq<Frame>) -> Seq<SpecFrame> {
    Seq::new(fs.len(), |i: int| frame_view(fs[i]))
}

/// A slot as `bind` creates it: unmoved and unborrowed.
pub open spec fn fresh_slot(value: Value) -> Slot {
    Slot { value, moved: false, moved_at: None, immutable_borrows: 0, mutable_borrow: false }
}

/// Index of the innermost frame that binds `k`.
pub open spec fn frame_of(fs: Seq<SpecFrame>, k: Seq<char>) -> Option<int>
    decreases fs.len(),
{
    if fs.len() == 0 {
        None
    } else if fs.last().bindings.contains_key(k) {
        Some(fs.len() - 1)
    } else {
        frame_of(fs.drop_last(), k)
    }
}

/// The slot `k` refers to, looking from the innermost frame outwards.
pub open spec fn lookup(fs: Seq<SpecFrame>, k: Seq<char>) -> Option<Slot> {
    match frame_of(fs, k) {
        Some(i) => Some(fs[i].bindings[k]),
        None => None,
    }
}

/// `fs` with the slot of `k` in frame `i` replaced.
pub open spec fn with_slot(fs: Seq<SpecFrame>, i: int, k: Seq<char>, s: Slot) -> Seq<SpecFrame> {
    fs.update(i, SpecFrame { bindings: fs[i].bindings.insert(k, s), kind: fs[i].kind })
}

pub open spec fn moved_span(s: Slot) -> Span {
    match s.moved_at {
        Some(sp) => sp,
        None => Span { start: 0, end: 0, line: 0, col: 0 },
    }
}

/// The error for reading a moved binding.
pub open spec fn use_after_move(k: Seq<char>, s: Slot, e: RuntimeError) -> bool {
    e matches RuntimeError::UseAfterMove { name, span } && name@ == k && span == moved_span(s)
}

pub open spec fn undefined(k: Seq<char>, e: RuntimeError) -> bool {
    e matches RuntimeError::UndefinedSymbol(n) && n@ == k
}

pub open spec fn custom(msg: Seq<char>, e: RuntimeError) -> bool {
    e matches RuntimeError::Custom(m) && m@ == msg
}

/// Taking one more immutable borrow of `k` would not overflow its counter.
pub open spec fn borrow_count_has_room(fs: Seq<SpecFrame>, k: Seq<char>) -> bool {
    match lookup(fs, k) {
        Some(s) => s.moved || s.mutable_borrow || s.immutable_borrows < u32::MAX,
        None => true,
    }
}

pub open spec fn msg_move_borrowed(k: Seq<char>) -> Seq<char> {
    "cannot move `"@ + k + "` — borrowed"@
}

pub open spec fn msg_imm_while_mut(k: Seq<char>) -> Seq<char> {
    "cannot immutably borrow `"@ + k + "` — already mutably borrowed"@
}

pub open spec fn msg_mut_while_imm(k: Seq<char>) -> Seq<char> {
    "cannot mutably borrow `"@ + k + "` — already immutably borrowed"@
}

pub open spec fn msg_mut_while_mut(k: Seq<char>) -> Seq<char> {
    "cannot mutably borrow `"@ + k + "` — already mutably borrowed"@
}

/// Runtime environment: a stack of scope frames, the module frame at the bottom.
#[derive(Debug)]
pub struct Env {
    frames: Vec<Frame>,
}

impl View for Env {
    type V = Seq<SpecFrame>;

    closed spec fn view(&self) -> Seq<SpecFrame> {
        frames_view(self.frames@)
    }
}

/// Updating the entry a key's latest binding sits in updates that key in the map.
pub proof fn lemma_bindings_update(b: Seq<(String, Slot)>, i: int, s: Slot)
    requires
        0 <= i < b.len(),
        forall|j: int| i < j < b.len() ==> (#[trigger] b[j]).0@ != b[i].0@,
    ensures
        bindings_map(b.update(i, (b[i].0, s))) == bindings_map(b).insert(b[i].0@, s),
    decreases b.len(),
{
    let nb = b.update(i, (b[i].0, s));
    if i == b.len() - 1 {
        assert(nb.drop_last() =~= b.drop_last());
        assert(bindings_map(nb) =~= bindings_map(b).insert(b[i].0@, s));
    } else {
        assert(nb.drop_last() =~= b.drop_last().update(i, (b[i].0, s)));
        lemma_bindings_update(b.drop_last(), i, s);
        assert(b.last().0@ != b[i].0@);
        assert(bindings_map(nb) =~= bindings_map(b).insert(b[i].0@, s));
    }
}

/// A key is bound exactly when some entry carries it; its slot is the one of
/// the last such entry.
/// `lemma_bindings_update` for every replacement slot at once.
pub proof fn lemma_bindings_update_any(b: Seq<(String, Slot)>, i: int)
    requires
        0 <= i < b.len(),
        forall|j: int| i < j < b.len() ==> (#[trigger] b[j]).0@ != b[i].0@,
    ensures
        forall|s: Slot| #[trigger] bindings_map(b.update(i, (b[i].0, s))) == bindings_map(b).insert(b[i].0@, s),
{
    assert forall|s: Slot| #[trigger] bindings_map(b.update(i, (b[i].0, s))) == bindings_map(b).insert(b[i].0@, s) by {
        lemma_bindings_update(b, i, s);
    }
}

/// Replacing one frame replaces its abstract frame.
pub proof fn lemma_frames_view_update(fs: Seq<Frame>, i: int)
    requires
        0 <= i < fs.len(),
    ensures
        forall|f: Frame| #[trigger] frames_view(fs.update(i, f)) == frames_view(fs).update(i, frame_view(f)),
{
    assert forall|f: Frame| #[trigger] frames_view(fs.update(i, f)) == frames_view(fs).update(i, frame_view(f)) by {
        assert(frames_view(fs.update(i, f)) =~= frames_view(fs).update(i, frame_view(f)));
    }
}

pub proof fn lemma_bindings_lookup(b: Seq<(String, Slot)>, i: int)
    requires
        0 <= i < b.len(),
        forall|j: int| i < j < b.len() ==> (#[trigger] b[j]).0@ != b[i].0@,
    ensures
        bindings_map(b).contains_key(b[i].0@),
        bindings_map(b)[b[i].0@] == b[i].1,
    decreases b.len(),
{
    if i < b.len() - 1 {
        lemma_bindings_lookup(b.drop_last(), i);
    }
}

pub proof fn lemma_bindings_absent(b: Seq<(String, Slot)>, k: Seq<char>)
    requires
        forall|j: int| 0 <= j < b.len() ==> (#[trigger] b[j]).0@ != k,
    ensures
        !bindings_map(b).contains_key(k),
    decreases b.len(),
{
    if b.len() > 0 {
        lemma_bindings_absent(b.drop_last(), k);
    }
}

/// Index of the last entry of `b` bound to `name`.
fn find_in_frame(b: &Vec<(String, Slot)>, name: &str) -> (r: Option<usize>)
    ensures
        match r {
            Some(j) => j < b@.len() && b@[j as int].0@ == name@
                && (forall|m: int| j < m < b@.len() ==> (#[trigger] b@[m]).0@ != name@)
                && bindings_map(b@).contains_key(name@) && bindings_map(b@)[name@] == b@[j as int].1,
            None => !bindings_map(b@).contains_key(name@),
        },
{
    let mut j = b.len();
    while j > 0
        invariant
            j <= b@.len(),
            forall|m: int| j <= m < b@.len() ==> (#[trigger] b@[m]).0@ != name@,
        decreases j,
    {
        if str_eq(b[j - 1].0.as_str(), name) {
            proof {
                lemma_bindings_lookup(b@, j - 1);
            }
            return Some(j - 1);
        }
        j -= 1;
    }
    proof {
        lemma_bindings_absent(b@, name@);
    }
    None
}

impl Env {
    /// At least the module frame is present.
    pub closed spec fn wf(&self) -> bool {
        self.frames@.len() >= 1
    }

    proof fn lemma_view_len(&self)
        ensures
            self@.len() == self.frames@.len(),
            forall|i: int| 0 <= i < self.frames@.len() ==> #[trigger] self@[i] == frame_view(self.frames@[i]),
    {
    }

    /// Where `name` is bound: frame index and entry index.
    fn find(&self, name: &str) -> (r: Option<(usize, usize)>)
        ensures
            match r {
                Some((fi, j)) => frame_of(self@, name@) == Some(fi as int) && fi < self.frames@.len()
                    && j < self.frames@[fi as int].bindings@.len()
                    && self.frames@[fi as int].bindings@[j as int].0@ == name@
                    && (forall|m: int| j < m < self.frames@[fi as int].bindings@.len()
                        ==> (#[trigger] self.frames@[fi as int].bindings@[m]).0@ != name@)
                    && lookup(self@, name@) == Some(self.frames@[fi as int].bindings@[j as int].1),
                None => frame_of(self@, name@) is None && lookup(self@, name@) is None,
            },
    {
        let mut fi = self.frames.len();
        proof {
            assert(self@.take(fi as int) =~= self@);
        }
        while fi > 0
            invariant
                fi <= self.frames@.len(),
                frame_of(self@, name@) == frame_of(self@.take(fi as int), name@),
            decreases fi,
        {
            let ghost pre = self@.take(fi as int);
            proof {
                assert(pre.drop_last() =~= self@.take(fi - 1));
                assert(pre.last() == frame_view(self.frames@[fi - 1]));
            }
            match find_in_frame(&self.frames[fi - 1].bindings, name) {
                Some(j) => {
                    return Some((fi - 1, j));
                },
                None => {},
            }
            fi -= 1;
        }
        None
    }

    /// A new environment holding only an empty module frame.
    pub fn new() -> (e: Env)
        ensures
            e.wf(),
            e@ == seq![SpecFrame { bindings: Map::empty(), kind: FrameKind::Module }],
    {
        let mut frames: Vec<Frame> = Vec::new();
        frames.push(Frame { bindings: Vec::new(), kind: FrameKind::Module });
        let e = Env { frames };
        assert(e@ =~= seq![SpecFrame { bindings: Map::empty(), kind: FrameKind::Module }]);
        e
    }

    /// Number of frames, the module frame included.
    pub fn depth(&self) -> (n: usize)
        ensures
            n == self@.len(),
    {
        self.frames.len()
    }

    /// The kind of frame `i`, counting from the module frame.
    pub fn frame_kind(&self, i: usize) -> (k: FrameKind)
        requires
            i < self@.len(),
        ensures
            k == self@[i as int].kind,
    {
        self.frames[i].kind
    }

    /// Pushes an empty frame of the given kind.
    pub fn push_frame(&mut self, kind: FrameKind)
        requires
            old(self).wf(),
        ensures
            final(self).wf(),
            final(self)@ == old(self)@.push(SpecFrame { bindings: Map::empty(), kind }),
    {
        self.frames.push(Frame { bindings: Vec::new(), kind });
        assert(self@ =~= old(self)@.push(SpecFrame { bindings: Map::empty(), kind }));
    }

    /// Pops the innermost frame; the module frame itself cannot be popped.
    pub fn pop_frame(&mut self)
        requires
            old(self).wf(),
            old(self)@.len() > 1,
        ensures
            final(self).wf(),
            final(self)@ == old(self)@.drop_last(),
    {
        self.frames.pop();
        assert(self@ =~= old(self)@.drop_last());
    }

    /// Binds `name` to `value` in the innermost frame, as a fresh slot.
    pub fn bind(&mut self, name: String, value: Value)
        requires
            old(self).wf(),
        ensures
            final(self).wf(),
            final(self)@ == with_slot(old(self)@, old(self)@.len() - 1, name@, fresh_slot(value)),
    {
        let top = self.frames.len() - 1;
        let ghost old_view = self@;
        let ghost k = name@;
        let ghost slot = fresh_slot(value);
        let mut frame = self.frames.pop().unwrap();
        let ghost ob = frame.bindings@;
        match find_in_frame(&frame.bindings, name.as_str()) {
            Some(j) => {
                let (n, _old_slot) = frame.bindings.remove(j);
                frame.bindings.insert(j, (n, fresh_slot_exec(value)));
                proof {
                    assert(frame.bindings@ =~= ob.update(j as int, (ob[j as int].0, slot)));
                    lemma_bindings_update(ob, j as int, slot);
                }
            },
            None => {
                frame.bindings.push((name, fresh_slot_exec(value)));
                proof {
                    assert(frame.bindings@.drop_last() =~= ob);
                }
            },
        }
        self.frames.push(frame);
        assert(self@ =~= with_slot(old_view, top as int, k, slot));
    }

    /// The value `name` refers to; an error if it is unbound or was moved.
    pub fn get(&self, name: &str) -> (r: Result<&Value, RuntimeError>)
        requires
            self.wf(),
        ensures
            match lookup(self@, name@) {
                None => r matches Err(e) && undefined(name@, e),
                Some(s) => if s.moved {
                    r matches Err(e) && use_after_move(name@, s, e)
                } else {
                    r matches Ok(v) && *v == s.value
                },
            },
    {
        match self.find(name) {
            None => Err(RuntimeError::UndefinedSymbol(String::from_str(name))),
            Some((fi, j)) => {
                let slot = &self.frames[fi].bindings[j].1;
                if slot.moved {
                    Err(RuntimeError::UseAfterMove { name: String::from_str(name), span: slot_moved_span(slot) })
                } else {
                    Ok(&slot.value)
                }
            },
        }
    }
}

impl Env {
    /// Replaces the slot at entry `j` of frame `fi`, keeping its value.
    fn restate_slot(&mut self, fi: usize, j: usize, moved: bool, moved_at: Option<Span>, imm: u32, mb: bool)
        requires
            old(self).wf(),
            fi < old(self).frames@.len(),
            j < old(self).frames@[fi as int].bindings@.len(),
            forall|m: int| j < m < old(self).frames@[fi as int].bindings@.len()
                ==> (#[trigger] old(self).frames@[fi as int].bindings@[m]).0@ != old(self).frames@[fi as int].bindings@[j as int].0@,
        ensures
            final(self).wf(),
            final(self)@ == with_slot(old(self)@, fi as int, old(self).frames@[fi as int].bindings@[j as int].0@,
                Slot {
                    value: old(self).frames@[fi as int].bindings@[j as int].1.value,
                    moved,
                    moved_at,
                    immutable_borrows: imm,
                    mutable_borrow: mb,
                }),
    {
        let ghost old_view = self@;
        let ghost ob = self.frames@[fi as int].bindings@;
        let ghost k = ob[j as int].0@;
        let mut frame = self.frames.remove(fi);
        let (n, slot) = frame.bindings.remove(j);
        let ns = Slot { value: slot.value, moved, moved_at, immutable_borrows: imm, mutable_borrow: mb };
        let ghost nsv = ns;
        frame.bindings.insert(j, (n, ns));
        proof {
            assert(frame.bindings@ =~= ob.update(j as int, (ob[j as int].0, nsv)));
            lemma_bindings_update(ob, j as int, nsv);
        }
        self.frames.insert(fi, frame);
        assert(self@ =~= with_slot(old_view, fi as int, k, nsv));
    }

    /// Marks `name` as moved at `span`; refused while it is borrowed.
    pub fn mark_moved(&mut self, name: &str, span: Span) -> (r: Result<(), RuntimeError>)
        requires
            old(self).wf(),
        ensures
            final(self).wf(),
            match lookup(old(self)@, name@) {
                None => r matches Err(e) && undefined(name@, e) && final(self)@ == old(self)@,
                Some(s) => if s.immutable_borrows > 0 || s.mutable_borrow {
                    r matches Err(e) && custom(msg_move_borrowed(name@), e) && final(self)@ == old(self)@
                } else {
                    r is Ok && final(self)@ == with_slot(old(self)@, frame_of(old(self)@, name@)->0, name@,
                        Slot { moved: true, moved_at: Some(span), ..s })
                },
            },
    {
        match self.find(name) {
            None => Err(RuntimeError::UndefinedSymbol(String::from_str(name))),
            Some((fi, j)) => {
                let imm = self.frames[fi].bindings[j].1.immutable_borrows;
                let mb = self.frames[fi].bindings[j].1.mutable_borrow;
                if imm > 0 || mb {
                    let mut m = String::from_str("cannot move `");
                    m.append(name);
                    m.append("` — borrowed");
                    return Err(RuntimeError::Custom(m));
                }
                self.restate_slot(fi, j, true, Some(span), imm, mb);
                Ok(())
            },
        }
    }

    /// Takes an immutable borrow of `name`; refused when moved or mutably borrowed.
    pub fn borrow_immutable(&mut self, name: &str) -> (r: Result<(), RuntimeError>)
        requires
            old(self).wf(),
            borrow_count_has_room(old(self)@, name@),
        ensures
            final(self).wf(),
            match lookup(old(self)@, name@) {
                None => r matches Err(e) && undefined(name@, e) && final(self)@ == old(self)@,
                Some(s) => if s.moved {
                    r matches Err(e) && use_after_move(name@, s, e) && final(self)@ == old(self)@
                } else if s.mutable_borrow {
                    r matches Err(e) && custom(msg_imm_while_mut(name@), e) && final(self)@ == old(self)@
                } else {
                    r is Ok && final(self)@ == with_slot(old(self)@, frame_of(old(self)@, name@)->0, name@,
                        Slot { immutable_borrows: (s.immutable_borrows + 1) as u32, ..s })
                },
            },
    {
        match self.find(name) {
            None => Err(RuntimeError::UndefinedSymbol(String::from_str(name))),
            Some((fi, j)) => {
                let moved = self.frames[fi].bindings[j].1.moved;
                let moved_at = self.frames[fi].bindings[j].1.moved_at;
                let imm = self.frames[fi].bindings[j].1.immutable_borrows;
                let mb = self.frames[fi].bindings[j].1.mutable_borrow;
                if moved {
                    return Err(RuntimeError::UseAfterMove {
                        name: String::from_str(name),
                        span: slot_moved_span(&self.frames[fi].bindings[j].1),
                    });
                }
                if mb {
                    let mut m = String::from_str("cannot immutably borrow `");
                    m.append(name);
                    m.append("` — already mutably borrowed");
                    return Err(RuntimeError::Custom(m));
                }
                self.restate_slot(fi, j, moved, moved_at, imm + 1, mb);
                Ok(())
            },
        }
    }

    /// Takes the mutable borrow of `name`; refused when moved or borrowed at all.
    pub fn borrow_mutable(&mut self, name: &str) -> (r: Result<(), RuntimeError>)
        requires
            old(self).wf(),
        ensures
            final(self).wf(),
            match lookup(old(self)@, name@) {
                None => r matches Err(e) && undefined(name@, e) && final(self)@ == old(self)@,
                Some(s) => if s.moved {
                    r matches Err(e) && use_after_move(name@, s, e) && final(self)@ == old(self)@
                } else if s.immutable_borrows > 0 {
                    r matches Err(e) && custom(msg_mut_while_imm(name@), e) && final(self)@ == old(self)@
                } else if s.mutable_borrow {
                    r matches Err(e) && custom(msg_mut_while_mut(name@), e) && final(self)@ == old(self)@
                } else {
                    r is Ok && final(self)@ == with_slot(old(self)@, frame_of(old(self)@, name@)->0, name@,
                        Slot { mutable_borrow: true, ..s })
                },
            },
    {
        match self.find(name) {
            None => Err(RuntimeError::UndefinedSymbol(String::from_str(name))),
            Some((fi, j)) => {
                let moved = self.frames[fi].bindings[j].1.moved;
                let moved_at = self.frames[fi].bindings[j].1.moved_at;
                let imm = self.frames[fi].bindings[j].1.immutable_borrows;
                let mb = self.frames[fi].bindings[j].1.mutable_borrow;
                if moved {
                    return Err(RuntimeError::UseAfterMove {
                        name: String::from_str(name),
                        span: slot_moved_span(&self.frames[fi].bindings[j].1),
                    });
                }
                if imm > 0 {
                    let mut m = String::from_str("cannot mutably borrow `");
                    m.append(name);
                    m.append("` — already immutably borrowed");
                    return Err(RuntimeError::Custom(m));
                }
                if mb {
                    let mut m = String::from_str("cannot mutably borrow `");
                    m.append(name);
                    m.append("` — already mutably borrowed");
                    return Err(RuntimeError::Custom(m));
                }
                self.restate_slot(fi, j, moved, moved_at, imm, true);
                Ok(())
            },
        }
    }

    /// Gives back one immutable borrow of `name`, if it has any.
    pub fn release_immutable_borrow(&mut self, name: &str)
        requires
            old(self).wf(),
        ensures
            final(self).wf(),
            match lookup(old(self)@, name@) {
                Some(s) => if s.immutable_borrows > 0 {
                    final(self)@ == with_slot(old(self)@, frame_of(old(self)@, name@)->0, name@,
                        Slot { immutable_borrows: (s.immutable_borrows - 1) as u32, ..s })
                } else {
                    final(self)@ == old(self)@
                },
                None => final(self)@ == old(self)@,
            },
    {
        match self.find(name) {
            None => {},
            Some((fi, j)) => {
                let moved = self.frames[fi].bindings[j].1.moved;
                let moved_at = self.frames[fi].bindings[j].1.moved_at;
                let imm = self.frames[fi].bindings[j].1.immutable_borrows;
                let mb = self.frames[fi].bindings[j].1.mutable_borrow;
                if imm > 0 {
                    self.restate_slot(fi, j, moved, moved_at, imm - 1, mb);
                }
            },
        }
    }

    /// Clears the mutable borrow of `name`.
    pub fn release_mutable_borrow(&mut self, name: &str)
        requires
            old(self).wf(),
        ensures
            final(self).wf(),
            match lookup(old(self)@, name@) {
                Some(s) => final(self)@ == with_slot(old(self)@, frame_of(old(self)@, name@)->0, name@,
                    Slot { mutable_borrow: false, ..s }),
                None => final(self)@ == old(self)@,
            },
    {
        match self.find(name) {
            None => {},
            Some((fi, j)) => {
                let moved = self.frames[fi].bindings[j].1.moved;
                let moved_at = self.frames[fi].bindings[j].1.moved_at;
                let imm = self.frames[fi].bindings[j].1.immutable_borrows;
                self.restate_slot(fi, j, moved, moved_at, imm, false);
            },
        }
    }
}

impl Env {
    /// Mutable access to the value `name` refers to; an error if it is
    /// unbound or was moved. Writing through the reference changes only
    /// that slot's value.
    pub fn get_mut(&mut self, name: &str) -> (r: Result<&mut Value, RuntimeError>)
        requires
            old(self).wf(),
        ensures
            final(self).wf(),
            match lookup(old(self)@, name@) {
                None => r matches Err(e) && undefined(name@, e) && final(self)@ == old(self)@,
                Some(s) => if s.moved {
                    r matches Err(e) && use_after_move(name@, s, e) && final(self)@ == old(self)@
                } else {
                    r matches Ok(v) && *v == s.value && final(self)@ == with_slot(old(self)@,
                        frame_of(old(self)@, name@)->0, name@, Slot { value: *final(v), ..s })
                },
            },
    {
        match self.find(name) {
            None => Err(RuntimeError::UndefinedSymbol(String::from_str(name))),
            Some((fi, j)) => {
                if self.frames[fi].bindings[j].1.moved {
                    return Err(RuntimeError::UseAfterMove {
                        name: String::from_str(name),
                        span: slot_moved_span(&self.frames[fi].bindings[j].1),
                    });
                }
                let ghost ob = self.frames@[fi as int].bindings@;
                let ghost fs = self.frames@;
                proof {
                    lemma_bindings_update_any(ob, j as int);
                    lemma_frames_view_update(fs, fi as int);
                }
                Ok(&mut self.frames[fi].bindings[j].1.value)
            },
        }
    }
}

fn fresh_slot_exec(value: Value) -> (s: Slot)
    ensures
        s == fresh_slot(value),
{
    Slot { value, moved: false, moved_at: None, immutable_borrows: 0, mutable_borrow: false }
}

fn slot_moved_span(s: &Slot) -> (sp: Span)
    ensures
        sp == moved_span(*s),
{
    match s.moved_at {
        Some(sp) => sp,
        None => Span::dummy(),
    }
}


// ── Laws ────────────────────────────────────────────────────────────

/// `frame_of` finds a frame that binds the key, and no inner frame binds it.
pub proof fn lemma_frame_of(fs: Seq<SpecFrame>, k: Seq<char>)
    ensures
        frame_of(fs, k) matches Some(i) ==> 0 <= i < fs.len() && fs[i].bindings.contains_key(k)
            && forall|j: int| i < j < fs.len() ==> !(#[trigger] fs[j]).bindings.contains_key(k),
        frame_of(fs, k) is None ==> forall|j: int| 0 <= j < fs.len() ==> !(#[trigger] fs[j]).bindings.contains_key(k),
    decreases fs.len(),
{
    if fs.len() > 0 {
        lemma_frame_of(fs.drop_last(), k);
        assert forall|j: int| 0 <= j < fs.len() - 1 implies fs.drop_last()[j] == #[trigger] fs[j] by {}
    }
}

/// After binding `k` in the innermost frame, `k` refers to the fresh slot,
/// whatever outer frames bind it to.
pub proof fn law_bind_then_lookup(fs: Seq<SpecFrame>, k: Seq<char>, v: Value)
    requires
        fs.len() >= 1,
    ensures
        lookup(with_slot(fs, fs.len() - 1, k, fresh_slot(v)), k) == Some(fresh_slot(v)),
{
    let nfs = with_slot(fs, fs.len() - 1, k, fresh_slot(v));
    assert(nfs.last().bindings.contains_key(k));
}

/// Binding `k` leaves every other name as it was.
pub proof fn law_bind_keeps_other_names(fs: Seq<SpecFrame>, k: Seq<char>, v: Value, other: Seq<char>)
    requires
        fs.len() >= 1,
        other != k,
    ensures
        lookup(with_slot(fs, fs.len() - 1, k, fresh_slot(v)), other) == lookup(fs, other),
{
    let nfs = with_slot(fs, fs.len() - 1, k, fresh_slot(v));
    let n = fs.len() - 1;
    if nfs.last().bindings.contains_key(other) {
        assert(fs.last().bindings.contains_key(other));
        assert(frame_of(nfs, other) == Some(n));
        assert(frame_of(fs, other) == Some(n));
        assert(nfs[n].bindings[other] == fs[n].bindings[other]);
    } else {
        assert(nfs.drop_last() =~= fs.drop_last());
        assert(!fs.last().bindings.contains_key(other));
        assert(frame_of(nfs, other) == frame_of(fs.drop_last(), other));
        assert(frame_of(fs, other) == frame_of(fs.drop_last(), other));
        lemma_frame_of(fs.drop_last(), other);
        if frame_of(fs, other) is Some {
            let j = frame_of(fs, other)->0;
            assert(nfs[j] == fs[j]);
        }
    }
}

/// Pushing a frame, binding in it and popping it gives back the environment
/// as it was: inner bindings do not outlive their frame.
pub proof fn law_pop_restores(fs: Seq<SpecFrame>, kind: FrameKind, k: Seq<char>, v: Value)
    ensures
        with_slot(fs.push(SpecFrame { bindings: Map::empty(), kind }), fs.len() as int, k, fresh_slot(v)).drop_last() == fs,
{
    assert(with_slot(fs.push(SpecFrame { bindings: Map::empty(), kind }), fs.len() as int, k, fresh_slot(v)).drop_last() =~= fs);
}

/// Changing the slot a name refers to is seen by the next lookup of that name;
/// in particular a name marked moved reads back as moved, at the span given.
pub proof fn law_restate_then_lookup(fs: Seq<SpecFrame>, k: Seq<char>, s: Slot)
    requires
        frame_of(fs, k) is Some,
    ensures
        lookup(with_slot(fs, frame_of(fs, k)->0, k, s), k) == Some(s),
    decreases fs.len(),
{
    lemma_frame_of(fs, k);
    let i = frame_of(fs, k)->0;
    let nfs = with_slot(fs, i, k, s);
    if i == fs.len() - 1 {
        assert(nfs.last().bindings.contains_key(k));
    } else {
        assert(!fs.last().bindings.contains_key(k));
        assert(nfs.last() == fs.last());
        assert(nfs.drop_last() =~= with_slot(fs.drop_last(), i, k, s));
        assert(frame_of(fs.drop_last(), k) == Some(i));
        law_restate_then_lookup(fs.drop_last(), k, s);
        assert(!nfs.last().bindings.contains_key(k));
        assert(frame_of(nfs, k) == frame_of(nfs.drop_last(), k));
        lemma_frame_of(nfs.drop_last(), k);
        let j = frame_of(nfs.drop_last(), k)->0;
        assert(nfs[j] == nfs.drop_last()[j]);
    }
}

/// No slot is borrowed mutably and immutably at once.
pub open spec fn borrows_exclusive(fs: Seq<SpecFrame>) -> bool {
    forall|i: int, k: Seq<char>| 0 <= i < fs.len() && #[trigger] fs[i].bindings.contains_key(k)
        ==> !(fs[i].bindings[k].mutable_borrow && fs[i].bindings[k].immutable_borrows > 0)
}

/// Every slot the borrow operations write keeps borrows exclusive: an
/// immutable borrow is only added to a slot without the mutable one, and
/// the mutable one only taken on a slot without immutable borrows.
pub proof fn law_borrows_stay_exclusive(fs: Seq<SpecFrame>, i: int, k: Seq<char>, s: Slot)
    requires
        borrows_exclusive(fs),
        0 <= i < fs.len(),
        !(s.mutable_borrow && s.immutable_borrows > 0),
    ensures
        borrows_exclusive(with_slot(fs, i, k, s)),
{
    let nfs = with_slot(fs, i, k, s);
    assert forall|a: int, kk: Seq<char>| 0 <= a < nfs.len() && #[trigger] nfs[a].bindings.contains_key(kk)
        implies !(nfs[a].bindings[kk].mutable_borrow && nfs[a].bindings[kk].immutable_borrows > 0) by {
        if a == i && kk != k {
            assert(fs[i].bindings.contains_key(kk));
        } else if a != i {
            assert(fs[a].bindings.contains_key(kk));
        }
    }
}


// ── Listing the visible bindings ────────────────────────────────────

/// Some entry of the list is named `k`.
pub open spec fn contains_name(v: Seq<&str>, k: Seq<char>) -> bool {
    exists|i: int| 0 <= i < v.len() && (#[trigger] v[i])@ == k
}

/// Strictly increasing in the order of strings.
pub open spec fn names_sorted(v: Seq<&str>) -> bool {
    forall|i: int, j: int| 0 <= i < j < v.len() ==> seq_lt((#[trigger] v[i])@, (#[trigger] v[j])@)
}

/// A name is in a frame's map exactly when some entry binds it.
pub proof fn lemma_bindings_keys(b: Seq<(String, Slot)>, k: Seq<char>)
    ensures
        bindings_map(b).contains_key(k) <==> exists|j: int| 0 <= j < b.len() && (#[trigger] b[j]).0@ == k,
    decreases b.len(),
{
    if b.len() > 0 {
        lemma_bindings_keys(b.drop_last(), k);
        if exists|j: int| 0 <= j < b.drop_last().len() && (#[trigger] b.drop_last()[j]).0@ == k {
            let j = choose|j: int| 0 <= j < b.drop_last().len() && (#[trigger] b.drop_last()[j]).0@ == k;
            assert(b[j].0@ == k);
        }
        if exists|j: int| 0 <= j < b.len() && (#[trigger] b[j]).0@ == k {
            let j = choose|j: int| 0 <= j < b.len() && (#[trigger] b[j]).0@ == k;
            if j < b.len() - 1 {
                assert(b.drop_last()[j].0@ == k);
            }
        }
    }
}

/// A name bound in some frame is found by `lookup`.
pub proof fn lemma_bound_somewhere(fs: Seq<SpecFrame>, f: int, k: Seq<char>)
    requires
        0 <= f < fs.len(),
        fs[f].bindings.contains_key(k),
    ensures
        frame_of(fs, k) is Some,
        lookup(fs, k) is Some,
    decreases fs.len(),
{
    if !fs.last().bindings.contains_key(k) {
        assert(f < fs.len() - 1);
        assert(fs.drop_last()[f] == fs[f]);
        lemma_bound_somewhere(fs.drop_last(), f, k);
    }
}

/// What `lookup` finds lives in a frame of the stack.
pub proof fn lemma_frame_of_bounds(fs: Seq<SpecFrame>, k: Seq<char>)
    ensures
        frame_of(fs, k) matches Some(f) ==> 0 <= f < fs.len() && fs[f].bindings.contains_key(k),
    decreases fs.len(),
{
    if fs.len() > 0 && !fs.last().bindings.contains_key(k) {
        lemma_frame_of_bounds(fs.drop_last(), k);
        if frame_of(fs.drop_last(), k) is Some {
            let f = frame_of(fs.drop_last(), k)->0;
            assert(fs.drop_last()[f] == fs[f]);
        }
    }
}

/// Adds `n` to a sorted list of distinct names, keeping it sorted.
fn insert_sorted<'a>(names: &mut Vec<&'a str>, n: &'a str)
    requires
        names_sorted(old(names)@),
    ensures
        names_sorted(final(names)@),
        forall|k: Seq<char>| contains_name(final(names)@, k) <==> (contains_name(old(names)@, k) || k == n@),
{
    let mut p: usize = 0;
    while p < names.len() && str_lt(names[p], n)
        invariant
            p <= names@.len(),
            names@ == old(names)@,
            names_sorted(names@),
            forall|i: int| 0 <= i < p ==> seq_lt((#[trigger] names@[i])@, n@),
        decreases names@.len() - p,
    {
        p += 1;
    }
    if p < names.len() && str_eq(names[p], n) {
        assert(contains_name(names@, n@));
        return;
    }
    let ghost old_v = names@;
    proof {
        if p < old_v.len() {
            lemma_seq_lt_total(old_v[p as int]@, n@);
            assert(seq_lt(n@, old_v[p as int]@));
            assert forall|i: int| p <= i < old_v.len() implies seq_lt(n@, (#[trigger] old_v[i])@) by {
                if i > p {
                    lemma_lt_transitive(n@, old_v[p as int]@, old_v[i]@, 0);
                }
            }
        }
        assert forall|i: int| 0 <= i < old_v.len() implies (#[trigger] old_v[i])@ != n@ by {
            if i < p {
                if old_v[i]@ == n@ {
                    lemma_lt_irreflexive(n@, 0);
                }
            } else {
                if old_v[i]@ == n@ {
                    lemma_lt_irreflexive(n@, 0);
                }
            }
        }
    }
    names.insert(p, n);
    proof {
        let nv = names@;
        assert(nv =~= old_v.insert(p as int, n));
        assert forall|i: int, j: int| 0 <= i < j < nv.len() implies seq_lt((#[trigger] nv[i])@, (#[trigger] nv[j])@) by {
            if j < p {
                assert(nv[i] == old_v[i] && nv[j] == old_v[j]);
            } else if j == p {
                assert(nv[i] == old_v[i]);
            } else if i < p {
                assert(nv[i] == old_v[i] && nv[j] == old_v[j - 1]);
                lemma_lt_transitive(old_v[i]@, n@, old_v[j - 1]@, 0);
            } else if i == p {
                assert(nv[j] == old_v[j - 1]);
            } else {
                assert(nv[i] == old_v[i - 1] && nv[j] == old_v[j - 1]);
            }
        }
        assert forall|k: Seq<char>| contains_name(nv, k) <==> (contains_name(old_v, k) || k == n@) by {
            if contains_name(nv, k) {
                let i = choose|i: int| 0 <= i < nv.len() && (#[trigger] nv[i])@ == k;
                if i < p {
                    assert(old_v[i]@ == k);
                } else if i > p {
                    assert(old_v[i - 1]@ == k);
                }
            }
            if contains_name(old_v, k) {
                let i = choose|i: int| 0 <= i < old_v.len() && (#[trigger] old_v[i])@ == k;
                if i < p {
                    assert(nv[i]@ == k);
                } else {
                    assert(nv[i + 1]@ == k);
                }
            }
            if k == n@ {
                assert(nv[p as int]@ == k);
            }
        }
    }
}

impl Env {
    /// Every name visible in the environment with the slot it refers to (the
    /// innermost binding), in the order of the names.
    pub fn iter_bindings(&self) -> (r: Vec<(&str, &Slot)>)
        requires
            self.wf(),
        ensures
            forall|i: int, j: int| 0 <= i < j < r@.len() ==> seq_lt((#[trigger] r@[i]).0@, (#[trigger] r@[j]).0@),
            forall|i: int| 0 <= i < r@.len() ==> lookup(self@, (#[trigger] r@[i]).0@) == Some(*r@[i].1),
            forall|k: Seq<char>| #[trigger] lookup(self@, k) is Some ==> exists|i: int| 0 <= i < r@.len() && (#[trigger] r@[i]).0@ == k,
    {
        proof {
            self.lemma_view_len();
        }
        let mut names: Vec<&str> = Vec::new();
        let mut fi: usize = 0;
        while fi < self.frames.len()
            invariant
                fi <= self.frames@.len(),
                self@.len() == self.frames@.len(),
                forall|i: int| 0 <= i < self.frames@.len() ==> #[trigger] self@[i] == frame_view(self.frames@[i]),
                names_sorted(names@),
                forall|k: Seq<char>| #[trigger] contains_name(names@, k) ==> lookup(self@, k) is Some,
                forall|f: int, j: int| 0 <= f < fi && 0 <= j < self.frames@[f].bindings@.len()
                    ==> contains_name(names@, (#[trigger] self.frames@[f].bindings@[j]).0@),
            decreases self.frames@.len() - fi,
        {
            let mut j: usize = 0;
            while j < self.frames[fi].bindings.len()
                invariant
                    fi < self.frames@.len(),
                    j <= self.frames@[fi as int].bindings@.len(),
                    self@.len() == self.frames@.len(),
                    forall|i: int| 0 <= i < self.frames@.len() ==> #[trigger] self@[i] == frame_view(self.frames@[i]),
                    names_sorted(names@),
                    forall|k: Seq<char>| #[trigger] contains_name(names@, k) ==> lookup(self@, k) is Some,
                    forall|f: int, jj: int| 0 <= f < fi && 0 <= jj < self.frames@[f].bindings@.len()
                        ==> contains_name(names@, (#[trigger] self.frames@[f].bindings@[jj]).0@),
                    forall|jj: int| 0 <= jj < j ==> contains_name(names@, (#[trigger] self.frames@[fi as int].bindings@[jj]).0@),
                decreases self.frames@[fi as int].bindings@.len() - j,
            {
                let n = self.frames[fi].bindings[j].0.as_str();
                proof {
                    let b = self.frames@[fi as int].bindings@;
                    lemma_bindings_keys(b, n@);
                    assert(b[j as int].0@ == n@);
                    lemma_bound_somewhere(self@, fi as int, n@);
                }
                insert_sorted(&mut names, n);
                j += 1;
            }
            fi += 1;
        }
        let mut out: Vec<(&str, &Slot)> = Vec::new();
        let mut k: usize = 0;
        while k < names.len()
            invariant
                k <= names@.len(),
                out@.len() == k,
                names_sorted(names@),
                forall|kk: Seq<char>| #[trigger] contains_name(names@, kk) ==> lookup(self@, kk) is Some,
                forall|i: int| 0 <= i < k ==> (#[trigger] out@[i]).0 == names@[i],
                forall|i: int| 0 <= i < k ==> lookup(self@, (#[trigger] out@[i]).0@) == Some(*out@[i].1),
            decreases names@.len() - k,
        {
            assert(contains_name(names@, names@[k as int]@));
            match self.find(names[k]) {
                Some((f, j)) => {
                    out.push((names[k], &self.frames[f].bindings[j].1));
                },
                None => {
                    assert(false);
                },
            }
            k += 1;
        }
        proof {
            assert forall|i: int, j: int| 0 <= i < j < out@.len() implies seq_lt((#[trigger] out@[i]).0@, (#[trigger] out@[j]).0@) by {
                assert(out@[i].0 == names@[i] && out@[j].0 == names@[j]);
            }
            assert forall|kk: Seq<char>| #[trigger] lookup(self@, kk) is Some implies exists|i: int| 0 <= i < out@.len() && (#[trigger] out@[i]).0@ == kk by {
                lemma_frame_of_bounds(self@, kk);
                let f = frame_of(self@, kk)->0;
                let b = self.frames@[f].bindings@;
                lemma_bindings_keys(b, kk);
                let j = choose|j: int| 0 <= j < b.len() && (#[trigger] b[j]).0@ == kk;
                assert(contains_name(names@, self.frames@[f].bindings@[j].0@));
                let i = choose|i: int| 0 <= i < names@.len() && (#[trigger] names@[i])@ == kk;
                assert(out@[i].0 == names@[i]);
            }
        }
        out
    }
}

} // verus!
