//! The daemon's render state: one record per live output, the pending
//! render events the compositor queues for them, and their
//! reconciliation once per tick of the event loop.
use vstd::prelude::*;
use crate::cli::Filter;
use crate::cli::ResizeStrategy;
use crate::codec;

pub mod dispatch;

verus! {

/// A compositor event waiting to be applied to an output.
#[derive(Clone, Copy, PartialEq, Eq, Structural, Debug)]
pub enum RenderEvent {
    /// The surface was given new dimensions.
    Configure { width: u32, height: u32 },
    /// The surface was closed and the output must be torn down.
    Closed,
}

/// The identity of the image an output currently shows: the source path
/// together with the resize parameters it was processed with.
pub struct ImgId {
    pub path: String,
    pub resize: ResizeStrategy,
    pub filter: Filter,
    pub fill_color: [u8; 3],
}

impl ImgId {
    /// Two identities denote the same processed image.
    pub open spec fn same(self, other: ImgId) -> bool {
        &&& self.path@ == other.path@
        &&& self.resize == other.resize
        &&& self.filter == other.filter
        &&& self.fill_color@ == other.fill_color@
    }

    /// A copy of this identity.
    pub fn duplicate(&self) -> (r: ImgId)
        ensures
            r.same(*self),
    {
        ImgId {
            path: self.path.clone(),
            resize: self.resize,
            filter: self.filter,
            fill_color: self.fill_color,
        }
    }
}

/// Whether two optional image identities are the same.
pub open spec fn img_opt_same(a: Option<ImgId>, b: Option<ImgId>) -> bool {
    match (a, b) {
        (Option::None, Option::None) => true,
        (Option::Some(x), Option::Some(y)) => x.same(y),
        _ => false,
    }
}

/// One live rendering target: a physical display with its surface
/// buffer, current image identity and at most one pending render event.
pub struct Output {
    pub name: String,
    pub width: u32,
    pub height: u32,
    pub buffer: Vec<u8>,
    pub img: Option<ImgId>,
    pub pending: Option<RenderEvent>,
}

impl Output {
    /// The buffer pool always holds exactly four bytes per pixel of the
    /// recorded dimensions, and a queued Configure is always applicable.
    pub open spec fn wf(&self) -> bool {
        &&& self.buffer@.len() == 4 * (self.width as int) * (self.height as int)
        &&& 4 * (self.width as int) * (self.height as int) <= usize::MAX
        &&& match self.pending {
            Option::Some(RenderEvent::Configure { width, height }) => 4 * (width as int) * (
            height as int) <= usize::MAX,
            _ => true,
        }
    }

    /// A copy of the currently displayed buffer, if an image has been
    /// applied to this output.
    pub fn get_current_img(&self) -> (r: Option<Vec<u8>>)
        ensures
            self.img is Some ==> (r matches Some(v) && v@ == self.buffer@),
            self.img is None ==> r is None,
    {
        if self.img.is_some() {
            Some(self.buffer.clone())
        } else {
            None
        }
    }

    /// Show a processed buffer on this output.
    pub fn draw(&mut self, img: &Vec<u8>)
        requires
            img@.len() == old(self).buffer@.len(),
        ensures
            final(self).buffer@ == img@,
            final(self).name == old(self).name,
            final(self).width == old(self).width,
            final(self).height == old(self).height,
            final(self).img == old(self).img,
            final(self).pending == old(self).pending,
    {
        self.buffer = img.clone();
    }

    /// Apply a frame diff to the displayed buffer in place.
    pub fn animate(&mut self, frame: &Vec<u8>)
        requires
            codec::diff_wf(frame@, old(self).buffer@.len() as int),
        ensures
            final(self).buffer@ == codec::diff_apply(frame@, old(self).buffer@),
            final(self).buffer@.len() == old(self).buffer@.len(),
            final(self).name == old(self).name,
            final(self).width == old(self).width,
            final(self).height == old(self).height,
            final(self).img == old(self).img,
            final(self).pending == old(self).pending,
    {
        codec::decode(frame, &mut self.buffer);
    }
}

/// How a newly queued event combines with an already pending one:
/// Closed always wins, and a queued Closed is never overwritten.
pub open spec fn merge_pending(cur: Option<RenderEvent>, ev: RenderEvent) -> Option<RenderEvent> {
    if ev is Closed {
        Some(RenderEvent::Closed)
    } else if cur == Some(RenderEvent::Closed) {
        Some(RenderEvent::Closed)
    } else {
        Some(ev)
    }
}

/// Closed outranks a queued Configure, and a queued Closed discards any
/// later Configure of the same tick: either order leaves Closed as the
/// event that reconciliation sees, so the output is destroyed and the
/// Configure is never applied.
pub proof fn lemma_closed_dominates_configure(cur: Option<RenderEvent>, w: u32, h: u32)
    ensures
        merge_pending(cur, RenderEvent::Closed) == Some(RenderEvent::Closed),
        merge_pending(
            Some(RenderEvent::Closed),
            RenderEvent::Configure { width: w, height: h },
        ) == Some(RenderEvent::Closed),
{
}

/// The buffer contents after a pool resize: existing bytes are kept,
/// new space is zeroed until the next image is applied.
pub open spec fn resized_content(s: Seq<u8>, n: int) -> Seq<u8> {
    if n <= s.len() {
        s.take(n)
    } else {
        s + Seq::new((n - s.len()) as nat, |i: int| 0u8)
    }
}

/// How one kept output looks after reconciliation.
pub open spec fn reconciled(o: Output, r: Output) -> bool {
    &&& r.name == o.name
    &&& r.img == o.img
    &&& r.pending is None
    &&& match o.pending {
        Option::Some(RenderEvent::Configure { width, height }) => {
            &&& r.width == width
            &&& r.height == height
            &&& r.buffer@ == resized_content(o.buffer@, 4 * (width as int) * (height as int))
        },
        _ => {
            &&& r.width == o.width
            &&& r.height == o.height
            &&& r.buffer == o.buffer
        },
    }
}

/// An output survives reconciliation unless its pending event is Closed.
pub open spec fn keeps(o: Output) -> bool {
    o.pending != Some(RenderEvent::Closed)
}

/// The daemon's registry of live outputs, one per display.
pub struct Daemon {
    pub outputs: Vec<Output>,
}

impl Daemon {
    /// Output names are unique and every output is well formed.
    pub open spec fn wf(&self) -> bool {
        &&& forall|i: int, j: int|
            0 <= i < j < self.outputs@.len() ==> self.outputs@[i].name@ != self.outputs@[j].name@
        &&& forall|i: int| 0 <= i < self.outputs@.len() ==> #[trigger] self.outputs@[i].wf()
    }

    /// Whether some output is called `n`.
    pub open spec fn has_name(&self, n: Seq<char>) -> bool {
        exists|i: int| 0 <= i < self.outputs@.len() && self.outputs@[i].name@ == n
    }

    /// An empty registry.
    pub fn new() -> (r: Daemon)
        ensures
            r.outputs@.len() == 0,
            r.wf(),
    {
        Daemon { outputs: Vec::new() }
    }

    /// Find the index of the output called `n`.
    fn find_index(&self, n: &str) -> (r: Option<usize>)
        ensures
            r matches Some(i) ==> i < self.outputs@.len() && self.outputs@[i as int].name@ == n@,
            r is None ==> !self.has_name(n@),
    {
        let len = self.outputs.len();
        let mut i: usize = 0;
        while i < len
            invariant
                i <= len,
                len == self.outputs@.len(),
                forall|q: int| 0 <= q < i ==> self.outputs@[q].name@ != n@,
            decreases len - i,
        {
            if crate::textfmt::str_eq(self.outputs[i].name.as_str(), n) {
                return Some(i);
            }
            i = i + 1;
        }
        None
    }

    /// Register a new output on hotplug-add; a name that is already
    /// present is left alone.
    pub fn register(&mut self, name: String) -> (added: bool)
        requires
            old(self).wf(),
        ensures
            final(self).wf(),
            added == !old(self).has_name(name@),
            !added ==> final(self).outputs@ == old(self).outputs@,
            added ==> {
                &&& final(self).outputs@.len() == old(self).outputs@.len() + 1
                &&& final(self).outputs@.take(old(self).outputs@.len() as int) == old(self).outputs@
                &&& final(self).outputs@.last().name@ == name@
                &&& final(self).outputs@.last().width == 0
                &&& final(self).outputs@.last().height == 0
                &&& final(self).outputs@.last().buffer@.len() == 0
                &&& final(self).outputs@.last().img is None
                &&& final(self).outputs@.last().pending is None
            },
    {
        if self.find_index(name.as_str()).is_some() {
            return false;
        }
        let o = Output {
            name,
            width: 0,
            height: 0,
            buffer: Vec::new(),
            img: None,
            pending: None,
        };
        self.outputs.push(o);
        proof {
            assert(final(self).outputs@.take(old(self).outputs@.len() as int) =~= old(self).outputs@);
        }
        true
    }

    /// Tear an output down on hotplug-remove.
    pub fn unregister(&mut self, name: &str) -> (removed: bool)
        requires
            old(self).wf(),
        ensures
            final(self).wf(),
            removed == old(self).has_name(name@),
            !removed ==> final(self).outputs@ == old(self).outputs@,
            removed ==> exists|i: int|
                {
                    &&& 0 <= i < old(self).outputs@.len()
                    &&& old(self).outputs@[i].name@ == name@
                    &&& final(self).outputs@ == old(self).outputs@.remove(i)
                },
    {
        match self.find_index(name) {
            Some(i) => {
                self.outputs.remove(i);
                proof {
                    let s = old(self).outputs@;
                    assert(final(self).outputs@ == s.remove(i as int));
                    assert forall|a: int, b: int|
                        0 <= a < b < final(self).outputs@.len() implies final(self).outputs@[a].name@
                        != final(self).outputs@[b].name@ by {
                        assert(final(self).outputs@[a] == if a < i {
                            s[a]
                        } else {
                            s[a + 1]
                        });
                        assert(final(self).outputs@[b] == if b < i {
                            s[b]
                        } else {
                            s[b + 1]
                        });
                    }
                }
                true
            },
            None => false,
        }
    }

    /// Queue a render event for the named output, latest wins, except
    /// that a queued Closed is never displaced and a Configure too large
    /// for memory is ignored.
    pub fn set_pending(&mut self, name: &str, ev: RenderEvent) -> (found: bool)
        requires
            old(self).wf(),
        ensures
            final(self).wf(),
            found == old(self).has_name(name@),
            !found ==> final(self).outputs@ == old(self).outputs@,
            found ==> exists|i: int|
                {
                    &&& 0 <= i < old(self).outputs@.len()
                    &&& old(self).outputs@[i].name@ == name@
                    &&& (if configure_applicable(ev) {
                        final(self).outputs@ == old(self).outputs@.update(
                            i,
                            Output {
                                pending: merge_pending(old(self).outputs@[i].pending, ev),
                                ..old(self).outputs@[i]
                            },
                        )
                    } else {
                        final(self).outputs@ == old(self).outputs@
                    })
                },
    {
        let applicable: bool = match ev {
            RenderEvent::Configure { width, height } => {
                proof {
                    assert((width as int) * (height as int) <= u64::MAX && 4 * (width as int) * (
                    height as int) == 4 * ((width as int) * (height as int))) by (nonlinear_arith)
                        requires
                            0 <= (width as int) <= u32::MAX,
                            0 <= (height as int) <= u32::MAX,
                    ;
                }
                let wh = (width as u64) * (height as u64);
                let ok = wh <= (usize::MAX as u64) / 4;
                proof {
                    vstd::arithmetic::div_mod::lemma_fundamental_div_mod(usize::MAX as int, 4);
                    vstd::arithmetic::div_mod::lemma_fundamental_div_mod(u64::MAX as int, 4);
                }
                ok
            },
            RenderEvent::Closed => true,
        };
        proof {
            assert(applicable == configure_applicable(ev));
        }
        if !applicable {
            return match self.find_index(name) {
                Some(_) => true,
                None => false,
            };
        }
        match self.find_index(name) {
            Some(i) => {
                let ghost pre = self.outputs@;
                let o = &mut self.outputs[i];
                let merged: RenderEvent = match ev {
                    RenderEvent::Closed => RenderEvent::Closed,
                    RenderEvent::Configure { width, height } => {
                        match o.pending {
                            Some(RenderEvent::Closed) => RenderEvent::Closed,
                            _ => RenderEvent::Configure { width, height },
                        }
                    },
                };
                o.pending = Some(merged);
                proof {
                    assert(Some(merged) == merge_pending(pre[i as int].pending, ev));
                    assert(self.outputs@ == pre.update(
                        i as int,
                        Output { pending: Some(merged), ..pre[i as int] },
                    ));
                    assert(pre[i as int].wf());
                    assert(self.outputs@[i as int].wf());
                    assert forall|j: int| 0 <= j < self.outputs@.len() implies #[trigger] self
                        .outputs@[j].wf() by {
                        if j != i {
                            assert(self.outputs@[j] == pre[j]);
                        }
                    }
                    assert forall|a: int, b: int|
                        0 <= a < b < self.outputs@.len() implies self.outputs@[a].name@ != self
                        .outputs@[b].name@ by {
                        assert(self.outputs@[a].name == pre[a].name);
                        assert(self.outputs@[b].name == pre[b].name);
                    }
                }
                true
            },
            None => false,
        }
    }
}

/// The outputs that survive reconciliation, in order.
pub open spec fn kept_outputs(s: Seq<Output>) -> Seq<Output> {
    s.filter(|o: Output| keeps(o))
}

/// The names of the outputs that reconciliation destroys, in order.
pub open spec fn closed_names(s: Seq<Output>) -> Seq<Seq<char>> {
    s.filter(|o: Output| !keeps(o)).map_values(|o: Output| o.name@)
}

/// Extending the processed prefix by one output extends the kept list
/// or the closed list, depending on its pending event.
proof fn lemma_kept_step(s: Seq<Output>, j: int)
    requires
        0 <= j < s.len(),
    ensures
        keeps(s[j]) ==> kept_outputs(s.take(j + 1)) == kept_outputs(s.take(j)).push(s[j]),
        keeps(s[j]) ==> closed_names(s.take(j + 1)) == closed_names(s.take(j)),
        !keeps(s[j]) ==> kept_outputs(s.take(j + 1)) == kept_outputs(s.take(j)),
        !keeps(s[j]) ==> closed_names(s.take(j + 1)) == closed_names(s.take(j)).push(s[j].name@),
{
    reveal(Seq::filter);
    assert(s.take(j + 1).drop_last() =~= s.take(j));
    assert(s.take(j + 1).last() == s[j]);
    if keeps(s[j]) {
    } else {
        let f = s.take(j).filter(|o: Output| !keeps(o));
        assert(f.push(s[j]).map_values(|o: Output| o.name@) =~= f.map_values(
            |o: Output| o.name@,
        ).push(s[j].name@));
    }
}

impl Daemon {
    /// Apply every pending event, returning the names of the outputs
    /// that were destroyed.  An output whose pending event is Closed is
    /// torn down and removed, and any Configure that Closed displaced is
    /// never applied; a pending Configure resizes the buffer pool and
    /// records the new dimensions, the content being redrawn only by
    /// the next applied image or frame; every pending cell is drained.
    #[verifier::rlimit(100)]
    pub fn reconcile(&mut self) -> (removed: Vec<String>)
        requires
            old(self).wf(),
        ensures
            final(self).wf(),
            final(self).outputs@.len() == kept_outputs(old(self).outputs@).len(),
            forall|q: int|
                0 <= q < final(self).outputs@.len() ==> reconciled(
                    kept_outputs(old(self).outputs@)[q],
                    #[trigger] final(self).outputs@[q],
                ),
            removed@.map_values(|s: String| s@) == closed_names(old(self).outputs@),
    {
        let ghost pre = self.outputs@;
        let ghost mut j: int = 0;
        let mut i: usize = 0;
        let mut removed: Vec<String> = Vec::new();
        proof {
            assert(pre.take(0) =~= Seq::<Output>::empty());
            reveal(Seq::filter);
        }
        while i < self.outputs.len()
            invariant
                old(self).wf(),
                pre == old(self).outputs@,
                0 <= j <= pre.len(),
                self.outputs@.len() == i + (pre.len() - j),
                i <= self.outputs@.len(),
                forall|q: int|
                    i <= q < self.outputs@.len() ==> #[trigger] self.outputs@[q] == pre[j + (q
                        - i)],
                kept_outputs(pre.take(j)).len() == i,
                forall|q: int|
                    0 <= q < i ==> reconciled(
                        kept_outputs(pre.take(j))[q],
                        #[trigger] self.outputs@[q],
                    ),
                removed@.map_values(|s: String| s@) == closed_names(pre.take(j)),
                forall|a: int, b: int|
                    0 <= a < b < self.outputs@.len() ==> self.outputs@[a].name@ != self
                        .outputs@[b].name@,
                forall|q: int| 0 <= q < self.outputs@.len() ==> #[trigger] self.outputs@[q].wf(),
            decreases self.outputs@.len() - i,
        {
            let ghost cur = self.outputs@;
            let is_closed = match self.outputs[i].pending {
                Some(RenderEvent::Closed) => true,
                _ => false,
            };
            proof {
                assert(cur[i as int] == pre[j]);
                lemma_kept_step(pre, j);
                assert(pre.take(j + 1).take(j) =~= pre.take(j));
            }
            if is_closed {
                let gone = self.outputs.remove(i);
                removed.push(gone.name);
                proof {
                    assert(!keeps(pre[j]));
                    assert(removed@.map_values(|s: String| s@) =~= closed_names(pre.take(j)).push(
                        pre[j].name@,
                    ));
                    j = j + 1;
                }
            } else {
                let o = &mut self.outputs[i];
                match o.pending {
                    Some(RenderEvent::Configure { width, height }) => {
                        proof {
                            assert(cur[i as int].wf());
                            assert(4 * ((width as int) * (height as int)) == 4 * (width as int) * (
                            height as int)) by (nonlinear_arith);
                        }
                        let n: usize = 4 * ((width as usize) * (height as usize));
                        o.width = width;
                        o.height = height;
                        o.buffer.resize(n, 0u8);
                        o.pending = None;
                        proof {
                            assert(o.buffer@ =~= resized_content(
                                cur[i as int].buffer@,
                                4 * (width as int) * (height as int),
                            ));
                        }
                    },
                    _ => {
                        o.pending = None;
                    },
                }
                proof {
                    assert(keeps(pre[j]));
                    assert(self.outputs@ =~= cur.update(i as int, self.outputs@[i as int]));
                    assert(reconciled(pre[j], self.outputs@[i as int]));
                    assert(self.outputs@[i as int].wf());
                    j = j + 1;
                }
                i = i + 1;
            }
        }
        proof {
            assert(j == pre.len());
            assert(pre.take(j) =~= pre);
        }
        removed
    }
}

/// A Configure event small enough for its pool to be allocated; Closed
/// is always applicable.
pub open spec fn configure_applicable(ev: RenderEvent) -> bool {
    match ev {
        RenderEvent::Configure { width, height } => 4 * (width as int) * (height as int)
            <= usize::MAX,
        RenderEvent::Closed => true,
    }
}

} // verus!
