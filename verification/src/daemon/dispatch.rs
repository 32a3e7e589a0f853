//! Request dispatch: resolving target outputs, coalescing them into
//! processing jobs, and building the daemon's replies.
use vstd::prelude::*;
use vstd::string::*;
use crate::codec;
use crate::daemon::Daemon;
use crate::daemon::ImgId;
use crate::daemon::Output;
use crate::daemon::img_opt_same;
use crate::imgproc::RawImg;
use crate::imgproc::resize::ResizeOperation;
use crate::textfmt::str_eq;

verus! {

/// `t` occurs as one comma-separated element of `s`, the element
/// spanning positions `i` (inclusive) to `j` (exclusive).
pub open spec fn token_at(s: Seq<char>, t: Seq<char>, i: int, j: int) -> bool {
    &&& 0 <= i <= j <= s.len()
    &&& (i == 0 || s[i - 1] == ',')
    &&& (j == s.len() || s[j] == ',')
    &&& (forall|q: int| i <= q < j ==> s[q] != ',')
    &&& t == s.subrange(i, j)
}

/// `t` occurs as one comma-separated element of `s`.
pub open spec fn is_token(s: Seq<char>, t: Seq<char>) -> bool {
    exists|i: int, j: int| token_at(s, t, i, j)
}

/// Some element of `ns` reads `t`.
pub open spec fn in_names(ns: Seq<String>, t: Seq<char>) -> bool {
    exists|k: int| 0 <= k < ns.len() && ns[k]@ == t
}

/// Whether some string in `ns` reads `t`.
fn contains_name(ns: &Vec<String>, t: &str) -> (r: bool)
    ensures
        r == in_names(ns@, t@),
{
    let len = ns.len();
    let mut k: usize = 0;
    while k < len
        invariant
            k <= len,
            len == ns@.len(),
            forall|q: int| 0 <= q < k ==> ns@[q]@ != t@,
        decreases len - k,
    {
        if str_eq(ns[k].as_str(), t) {
            return true;
        }
        k = k + 1;
    }
    false
}

impl Daemon {
    /// Resolve an output list from a request: an empty list names every
    /// known output; otherwise it is a comma-separated list whose
    /// unmatched elements are skipped (the caller reports them), and
    /// each matched name appears once however often it was written.
    pub fn find_targets(&self, outputs: &str) -> (r: Vec<String>)
        requires
            self.wf(),
        ensures
            outputs@.len() == 0 ==> r@.len() == self.outputs@.len() && (forall|q: int|
                0 <= q < r@.len() ==> r@[q]@ == self.outputs@[q].name@),
            outputs@.len() > 0 ==> {
                &&& forall|q: int|
                    0 <= q < r@.len() ==> self.has_name(#[trigger] r@[q]@) && is_token(
                        outputs@,
                        r@[q]@,
                    )
                &&& forall|t: Seq<char>|
                    #![trigger is_token(outputs@, t)]
                    is_token(outputs@, t) && self.has_name(t) ==> in_names(r@, t)
            },
            forall|a: int, b: int| 0 <= a < b < r@.len() ==> r@[a]@ != r@[b]@,
    {
        let mut result: Vec<String> = Vec::new();
        let len = outputs.unicode_len();
        if len == 0 {
            let n = self.outputs.len();
            let mut k: usize = 0;
            while k < n
                invariant
                    self.wf(),
                    k <= n,
                    n == self.outputs@.len(),
                    result@.len() == k,
                    forall|q: int| 0 <= q < k ==> result@[q]@ == self.outputs@[q].name@,
                decreases n - k,
            {
                result.push(self.outputs[k].name.clone());
                k = k + 1;
            }
            proof {
                assert forall|a: int, b: int| 0 <= a < b < result@.len() implies result@[a]@
                    != result@[b]@ by {
                    assert(result@[a]@ == self.outputs@[a].name@);
                    assert(result@[b]@ == self.outputs@[b].name@);
                }
            }
            return result;
        }
        let mut i: usize = 0;
        let mut start: usize = 0;
        loop
            invariant
                self.wf(),
                len == outputs@.len(),
                len > 0,
                0 <= start <= i <= len,
                start == 0 || outputs@[start - 1] == ',',
                forall|q: int| start <= q < i ==> outputs@[q] != ',',
                forall|q: int|
                    0 <= q < result@.len() ==> self.has_name(#[trigger] result@[q]@) && is_token(
                        outputs@,
                        result@[q]@,
                    ),
                forall|a: int, b: int| 0 <= a < b < result@.len() ==> result@[a]@ != result@[b]@,
                forall|ti: int, tj: int|
                    #![trigger token_at(outputs@, outputs@.subrange(ti, tj), ti, tj)]
                    token_at(outputs@, outputs@.subrange(ti, tj), ti, tj) && tj < start
                        && self.has_name(outputs@.subrange(ti, tj)) ==> in_names(
                        result@,
                        outputs@.subrange(ti, tj),
                    ),
            ensures
                forall|q: int|
                    0 <= q < result@.len() ==> self.has_name(#[trigger] result@[q]@) && is_token(
                        outputs@,
                        result@[q]@,
                    ),
                forall|a: int, b: int| 0 <= a < b < result@.len() ==> result@[a]@ != result@[b]@,
                forall|ti: int, tj: int|
                    #![trigger token_at(outputs@, outputs@.subrange(ti, tj), ti, tj)]
                    token_at(outputs@, outputs@.subrange(ti, tj), ti, tj) && self.has_name(
                        outputs@.subrange(ti, tj),
                    ) ==> in_names(result@, outputs@.subrange(ti, tj)),
            decreases len - i,
        {
            let sep = if i == len {
                true
            } else {
                outputs.get_char(i) == ','
            };
            if sep {
                let token = outputs.substring_char(start, i);
                let ghost pre_result = result@;
                let known = self.find_index(token).is_some();
                let dup = if known {
                    contains_name(&result, token)
                } else {
                    false
                };
                if known && !dup {
                    result.push(token.to_owned());
                }
                proof {
                    let s = outputs@;
                    let t = s.subrange(start as int, i as int);
                    assert(token_at(s, t, start as int, i as int));
                    assert forall|x: Seq<char>| in_names(pre_result, x) implies in_names(
                        result@,
                        x,
                    ) by {
                        let k = choose|k: int| 0 <= k < pre_result.len() && pre_result[k]@ == x;
                        assert(result@[k]@ == x);
                    }
                    if self.has_name(t) {
                        if known && !dup {
                            assert(result@[result@.len() - 1]@ == t);
                        }
                        assert(in_names(result@, t));
                    }
                    assert forall|ti: int, tj: int|
                        token_at(s, s.subrange(ti, tj), ti, tj) && tj < i + 1 && self.has_name(
                            s.subrange(ti, tj),
                        ) implies in_names(result@, s.subrange(ti, tj)) by {
                        if tj >= start {
                            assert(tj == i) by {
                                if tj < i {
                                    assert(s[tj] == ',');
                                }
                            }
                            assert(ti == start) by {
                                if ti < start {
                                    assert(start > 0 && ti <= start - 1 < i);
                                    assert(s[start - 1] == ',');
                                    assert(s[start - 1] != ',');
                                } else if ti > start {
                                    assert(s[ti - 1] == ',');
                                    assert(s[ti - 1] != ',');
                                }
                            }
                        }
                    }
                }
                if i == len {
                    break ;
                }
                start = i + 1;
            }
            i = i + 1;
        }
        proof {
            assert forall|t: Seq<char>| is_token(outputs@, t) && self.has_name(t) implies in_names(
                result@,
                t,
            ) by {
                let (ti, tj): (int, int) = choose|ti: int, tj: int| token_at(outputs@, t, ti, tj);
                assert(token_at(outputs@, t, ti, tj));
                assert(t == outputs@.subrange(ti, tj));
                assert(token_at(outputs@, outputs@.subrange(ti, tj), ti, tj));
            }
        }
        result
    }

    /// The elements of a non-empty output list that name no known
    /// output, duplicate-free: the caller reports each with a warning,
    /// and they are never fatal.
    pub fn unmatched_targets(&self, outputs: &str) -> (r: Vec<String>)
        requires
            self.wf(),
        ensures
            forall|q: int|
                0 <= q < r@.len() ==> !self.has_name(#[trigger] r@[q]@) && is_token(
                    outputs@,
                    r@[q]@,
                ),
            outputs@.len() > 0 ==> (forall|t: Seq<char>|
                #![trigger is_token(outputs@, t)]
                is_token(outputs@, t) && !self.has_name(t) ==> in_names(r@, t)),
            forall|a: int, b: int| 0 <= a < b < r@.len() ==> r@[a]@ != r@[b]@,
    {
        let mut result: Vec<String> = Vec::new();
        let len = outputs.unicode_len();
        if len == 0 {
            return result;
        }
        let mut i: usize = 0;
        let mut start: usize = 0;
        loop
            invariant
                self.wf(),
                len == outputs@.len(),
                len > 0,
                0 <= start <= i <= len,
                start == 0 || outputs@[start - 1] == ',',
                forall|q: int| start <= q < i ==> outputs@[q] != ',',
                forall|q: int|
                    0 <= q < result@.len() ==> !self.has_name(#[trigger] result@[q]@) && is_token(
                        outputs@,
                        result@[q]@,
                    ),
                forall|a: int, b: int| 0 <= a < b < result@.len() ==> result@[a]@ != result@[b]@,
                forall|ti: int, tj: int|
                    #![trigger token_at(outputs@, outputs@.subrange(ti, tj), ti, tj)]
                    token_at(outputs@, outputs@.subrange(ti, tj), ti, tj) && tj < start
                        && !self.has_name(outputs@.subrange(ti, tj)) ==> in_names(
                        result@,
                        outputs@.subrange(ti, tj),
                    ),
            ensures
                forall|q: int|
                    0 <= q < result@.len() ==> !self.has_name(#[trigger] result@[q]@) && is_token(
                        outputs@,
                        result@[q]@,
                    ),
                forall|a: int, b: int| 0 <= a < b < result@.len() ==> result@[a]@ != result@[b]@,
                forall|ti: int, tj: int|
                    #![trigger token_at(outputs@, outputs@.subrange(ti, tj), ti, tj)]
                    token_at(outputs@, outputs@.subrange(ti, tj), ti, tj) && !self.has_name(
                        outputs@.subrange(ti, tj),
                    ) ==> in_names(result@, outputs@.subrange(ti, tj)),
            decreases len - i,
        {
            let sep = if i == len {
                true
            } else {
                outputs.get_char(i) == ','
            };
            if sep {
                let token = outputs.substring_char(start, i);
                let ghost pre_result = result@;
                let known = self.find_index(token).is_some();
                let dup = if !known {
                    contains_name(&result, token)
                } else {
                    false
                };
                if !known && !dup {
                    result.push(token.to_owned());
                }
                proof {
                    let s = outputs@;
                    let t = s.subrange(start as int, i as int);
                    assert(token_at(s, t, start as int, i as int));
                    assert forall|x: Seq<char>| in_names(pre_result, x) implies in_names(
                        result@,
                        x,
                    ) by {
                        let k = choose|k: int| 0 <= k < pre_result.len() && pre_result[k]@ == x;
                        assert(result@[k]@ == x);
                    }
                    if !self.has_name(t) {
                        if !known && !dup {
                            assert(result@[result@.len() - 1]@ == t);
                        }
                        assert(in_names(result@, t));
                    }
                    assert forall|ti: int, tj: int|
                        token_at(s, s.subrange(ti, tj), ti, tj) && tj < i + 1 && !self.has_name(
                            s.subrange(ti, tj),
                        ) implies in_names(result@, s.subrange(ti, tj)) by {
                        if tj >= start {
                            assert(tj == i) by {
                                if tj < i {
                                    assert(s[tj] == ',');
                                }
                            }
                            assert(ti == start) by {
                                if ti < start {
                                    assert(start > 0 && ti <= start - 1 < i);
                                    assert(s[start - 1] == ',');
                                    assert(s[start - 1] != ',');
                                } else if ti > start {
                                    assert(s[ti - 1] == ',');
                                    assert(s[ti - 1] != ',');
                                }
                            }
                        }
                    }
                }
                if i == len {
                    break ;
                }
                start = i + 1;
            }
            i = i + 1;
        }
        proof {
            assert forall|t: Seq<char>| is_token(outputs@, t) && !self.has_name(t) implies
                in_names(result@, t) by {
                let (ti, tj): (int, int) = choose|ti: int, tj: int| token_at(outputs@, t, ti, tj);
                assert(token_at(outputs@, t, ti, tj));
                assert(t == outputs@.subrange(ti, tj));
                assert(token_at(outputs@, outputs@.subrange(ti, tj), ti, tj));
            }
        }
        result
    }
}

/// One processing job: outputs that share dimensions and current image
/// identity, so the pipeline runs once for all of them.
pub struct Group {
    pub names: Vec<String>,
    pub width: u32,
    pub height: u32,
    pub img: Option<ImgId>,
}

/// The output `o` has this group's dimensions and image identity.
pub open spec fn key_matches(g: Group, o: Output) -> bool {
    &&& o.width == g.width
    &&& o.height == g.height
    &&& img_opt_same(o.img, g.img)
}

/// Two groups were formed around the same dimensions and identity.
pub open spec fn key_same(a: Group, b: Group) -> bool {
    &&& a.width == b.width
    &&& a.height == b.height
    &&& img_opt_same(a.img, b.img)
}

/// Some group of `gs` contains the name `t`.
pub open spec fn in_groups(gs: Seq<Group>, t: Seq<char>) -> bool {
    exists|g: int| 0 <= g < gs.len() && in_names(gs[g].names@, t)
}

/// Every structural obligation on a finished grouping: groups are
/// nonempty, their members are drawn from the targets without
/// duplication, every member matches its group's key, and no two
/// groups share a key.
pub open spec fn groups_wf(d: Daemon, gs: Seq<Group>, orig: Seq<String>) -> bool {
    &&& forall|g: int| 0 <= g < gs.len() ==> (#[trigger] gs[g].names@).len() > 0
    &&& forall|g: int, k: int|
        #![trigger gs[g].names@[k]]
        0 <= g < gs.len() && 0 <= k < gs[g].names@.len() ==> in_names(orig, gs[g].names@[k]@)
    &&& forall|g: int, k: int|
        #![trigger gs[g].names@[k]]
        0 <= g < gs.len() && 0 <= k < gs[g].names@.len() ==> d.has_name(gs[g].names@[k]@)
            && key_matches(gs[g], d.the_output(gs[g].names@[k]@))
    &&& forall|g1: int, k1: int, g2: int, k2: int|
        #![trigger gs[g1].names@[k1], gs[g2].names@[k2]]
        0 <= g1 < gs.len() && 0 <= k1 < gs[g1].names@.len() && 0 <= g2 < gs.len() && 0 <= k2
            < gs[g2].names@.len() && (g1 != g2 || k1 != k2) ==> gs[g1].names@[k1]@
            != gs[g2].names@[k2]@
    &&& forall|g1: int, g2: int| 0 <= g1 < g2 < gs.len() ==> !key_same(gs[g1], gs[g2])
}

/// A copy of an optional image identity.
fn dup_opt_img(img: &Option<ImgId>) -> (r: Option<ImgId>)
    ensures
        img_opt_same(r, *img),
        img_opt_same(*img, r),
{
    match img {
        Some(id) => Some(id.duplicate()),
        None => None,
    }
}

/// Whether two optional identities are the same, decided in execution.
fn img_opt_eq(a: &Option<ImgId>, b: &Option<ImgId>) -> (r: bool)
    ensures
        r == img_opt_same(*a, *b),
{
    match (a, b) {
        (None, None) => true,
        (Some(x), Some(y)) => {
            let fills = x.fill_color[0] == y.fill_color[0] && x.fill_color[1] == y.fill_color[1]
                && x.fill_color[2] == y.fill_color[2];
            proof {
                if fills {
                    assert(x.fill_color@ =~= y.fill_color@);
                }
            }
            fills && x.resize == y.resize && x.filter == y.filter && str_eq(
                x.path.as_str(),
                y.path.as_str(),
            )
        },
        _ => false,
    }
}

impl Daemon {
    /// The index of the output called `n`, when one exists.
    pub open spec fn index_of(&self, n: Seq<char>) -> int {
        choose|i: int| 0 <= i < self.outputs@.len() && self.outputs@[i].name@ == n
    }

    /// The output called `n`, when one exists.
    pub open spec fn the_output(&self, n: Seq<char>) -> Output {
        self.outputs@[self.index_of(n)]
    }

    /// With unique names, every index is the index its name resolves to.
    pub proof fn lemma_named(&self, i: int)
        requires
            self.wf(),
            0 <= i < self.outputs@.len(),
        ensures
            self.index_of(self.outputs@[i].name@) == i,
            self.the_output(self.outputs@[i].name@) == self.outputs@[i],
    {
        let n = self.outputs@[i].name@;
        assert(0 <= i < self.outputs@.len() && self.outputs@[i].name@ == n);
        let j = self.index_of(n);
        assert(0 <= j < self.outputs@.len() && self.outputs@[j].name@ == n);
        if i < j {
            assert(self.outputs@[i].name@ != self.outputs@[j].name@);
        } else if j < i {
            assert(self.outputs@[j].name@ != self.outputs@[i].name@);
        }
    }

    /// Coalesce the target outputs into processing jobs: repeatedly
    /// seed a job from one remaining target and absorb every other
    /// remaining target whose dimensions and current image identity
    /// match, so the pipeline runs once per distinct state, not once
    /// per output.
    #[verifier::rlimit(100)]
    pub fn group_targets(&self, targets: Vec<String>) -> (r: Vec<Group>)
        requires
            self.wf(),
            forall|q: int| 0 <= q < targets@.len() ==> self.has_name(#[trigger] targets@[q]@),
            forall|a: int, b: int| 0 <= a < b < targets@.len() ==> targets@[a]@ != targets@[b]@,
        ensures
            groups_wf(*self, r@, targets@),
            forall|q: int| 0 <= q < targets@.len() ==> in_groups(r@, #[trigger] targets@[q]@),
    {
        let ghost orig = targets@;
        let mut targets = targets;
        let mut groups: Vec<Group> = Vec::new();
        proof {
            assert forall|q: int| 0 <= q < targets@.len() implies in_names(
                orig,
                #[trigger] targets@[q]@,
            ) by {
                assert(orig[q]@ == targets@[q]@);
            }
        }
        while targets.len() > 0
            invariant
                self.wf(),
                groups_wf(*self, groups@, orig),
                forall|q: int| 0 <= q < targets@.len() ==> self.has_name(#[trigger] targets@[q]@),
                forall|a: int, b: int|
                    0 <= a < b < targets@.len() ==> targets@[a]@ != targets@[b]@,
                forall|q: int|
                    0 <= q < targets@.len() ==> in_names(orig, #[trigger] targets@[q]@),
                forall|q: int, g: int, k: int|
                    #![trigger targets@[q], groups@[g].names@[k]]
                    0 <= q < targets@.len() && 0 <= g < groups@.len() && 0 <= k
                        < groups@[g].names@.len() ==> targets@[q]@ != groups@[g].names@[k]@,
                forall|q: int, g: int|
                    #![trigger key_matches(groups@[g], self.the_output(targets@[q]@))]
                    0 <= q < targets@.len() && 0 <= g < groups@.len() ==> !key_matches(
                        groups@[g],
                        self.the_output(targets@[q]@),
                    ),
                forall|q: int|
                    0 <= q < orig.len() ==> in_names(targets@, #[trigger] orig[q]@) || in_groups(
                        groups@,
                        orig[q]@,
                    ),
            decreases targets@.len(),
        {
            let ghost t_enter = targets@;
            let ghost groups_enter = groups@;
            let seed_name = targets.pop().unwrap();
            let si = match self.find_index(seed_name.as_str()) {
                Some(x) => x,
                None => {
                    proof {
                        assert(t_enter.last() == seed_name);
                        assert(self.has_name(seed_name@));
                    }
                    unreached()
                },
            };
            proof {
                self.lemma_named(si as int);
            }
            let seed_w = self.outputs[si].width;
            let seed_h = self.outputs[si].height;
            let gimg = dup_opt_img(&self.outputs[si].img);
            let ghost seed_view = seed_name@;
            let mut names: Vec<String> = Vec::new();
            names.push(seed_name);
            proof {
                assert(names@[0]@ == seed_view);
                assert(t_enter[t_enter.len() - 1]@ == seed_view);
                assert forall|g: int, kk: int|
                    #![trigger groups@[g].names@[kk]]
                    0 <= g < groups@.len() && 0 <= kk < groups@[g].names@.len() implies seed_view
                    != groups@[g].names@[kk]@ by {
                    assert(t_enter[t_enter.len() - 1]@ != groups@[g].names@[kk]@);
                }
                assert forall|q2: int| 0 <= q2 < t_enter.len() implies in_names(
                    targets@,
                    #[trigger] t_enter[q2]@,
                ) || in_names(names@, t_enter[q2]@) by {
                    if q2 == t_enter.len() - 1 {
                        assert(names@[0]@ == t_enter[q2]@);
                    } else {
                        assert(targets@[q2]@ == t_enter[q2]@);
                    }
                }
                assert forall|q: int| 0 <= q < targets@.len() implies in_names(
                    t_enter,
                    #[trigger] targets@[q]@,
                ) by {
                    assert(t_enter[q]@ == targets@[q]@);
                }
            }
            let mut k: usize = 0;
            while k < targets.len()
                invariant
                    self.wf(),
                    k <= targets@.len(),
                    names@.len() >= 1,
                    names@[0]@ == seed_view,
                    self.has_name(seed_view),
                    self.the_output(seed_view).width == seed_w,
                    self.the_output(seed_view).height == seed_h,
                    img_opt_same(self.the_output(seed_view).img, gimg),
                    img_opt_same(gimg, self.the_output(seed_view).img),
                    // names: drawn from the entered targets, pairwise distinct,
                    // all matching the seed's key
                    forall|m: int|
                        0 <= m < names@.len() ==> in_names(t_enter, #[trigger] names@[m]@),
                    forall|a: int, b: int| 0 <= a < b < names@.len() ==> names@[a]@ != names@[b]@,
                    forall|m: int|
                        0 <= m < names@.len() ==> self.has_name(#[trigger] names@[m]@) && self
                            .the_output(names@[m]@).width == seed_w && self.the_output(
                            names@[m]@,
                        ).height == seed_h && img_opt_same(self.the_output(names@[m]@).img, gimg),
                    // remaining targets: valid, distinct, disjoint from
                    // names and from earlier groups
                    forall|q: int|
                        0 <= q < targets@.len() ==> self.has_name(#[trigger] targets@[q]@),
                    forall|a: int, b: int|
                        0 <= a < b < targets@.len() ==> targets@[a]@ != targets@[b]@,
                    forall|q: int|
                        0 <= q < targets@.len() ==> in_names(orig, #[trigger] targets@[q]@),
                    targets@.len() < t_enter.len(),
                    forall|q: int|
                        0 <= q < targets@.len() ==> in_names(t_enter, #[trigger] targets@[q]@),
                    forall|q: int, m: int|
                        #![trigger targets@[q], names@[m]]
                        0 <= q < targets@.len() && 0 <= m < names@.len() ==> targets@[q]@
                            != names@[m]@,
                    forall|q: int, g: int, kk: int|
                        #![trigger targets@[q], groups@[g].names@[kk]]
                        0 <= q < targets@.len() && 0 <= g < groups@.len() && 0 <= kk
                            < groups@[g].names@.len() ==> targets@[q]@ != groups@[g].names@[kk]@,
                    forall|m: int, g: int, kk: int|
                        #![trigger names@[m], groups@[g].names@[kk]]
                        0 <= m < names@.len() && 0 <= g < groups@.len() && 0 <= kk
                            < groups@[g].names@.len() ==> names@[m]@ != groups@[g].names@[kk]@,
                    forall|q: int, g: int|
                        #![trigger key_matches(groups@[g], self.the_output(targets@[q]@))]
                        0 <= q < targets@.len() && 0 <= g < groups@.len() ==> !key_matches(
                            groups@[g],
                            self.the_output(targets@[q]@),
                        ),
                    // scanned prefix does not match the seed's key
                    forall|q: int|
                        0 <= q < k ==> !(self.the_output(#[trigger] targets@[q]@).width == seed_w
                            && self.the_output(targets@[q]@).height == seed_h && img_opt_same(
                            self.the_output(targets@[q]@).img,
                            gimg,
                        )),
                    // groups unchanged; names and targets partition the
                    // entered targets
                    groups@ == groups_enter,
                    forall|q2: int|
                        0 <= q2 < t_enter.len() ==> in_names(targets@, #[trigger] t_enter[q2]@)
                            || in_names(names@, t_enter[q2]@),
                decreases targets@.len() - k,
            {
                let ghost t_inner = targets@;
                let ti = match self.find_index(targets[k].as_str()) {
                    Some(x) => x,
                    None => {
                        proof {
                            assert(self.has_name(targets@[k as int]@));
                        }
                        unreached()
                    },
                };
                proof {
                    self.lemma_named(ti as int);
                }
                let matches_key = self.outputs[ti].width == seed_w && self.outputs[ti].height
                    == seed_h && img_opt_eq(&self.outputs[ti].img, &gimg);
                if matches_key {
                    let ghost names_pre = names@;
                    let nm = targets.remove(k);
                    names.push(nm);
                    proof {
                        assert(names@.last()@ == t_inner[k as int]@);
                        assert forall|m: int| 0 <= m < names@.len() implies in_names(
                            t_enter,
                            #[trigger] names@[m]@,
                        ) by {
                            if m < names_pre.len() {
                                assert(names@[m]@ == names_pre[m]@);
                            } else {
                                assert(names@[m]@ == t_inner[k as int]@);
                            }
                        }
                        assert forall|q: int| 0 <= q < targets@.len() implies in_names(
                            t_enter,
                            #[trigger] targets@[q]@,
                        ) && in_names(orig, targets@[q]@) by {
                            if q < k {
                                assert(targets@[q]@ == t_inner[q]@);
                            } else {
                                assert(targets@[q]@ == t_inner[q + 1]@);
                            }
                        }
                        assert forall|q2: int|
                            0 <= q2 < t_enter.len() implies in_names(
                            targets@,
                            #[trigger] t_enter[q2]@,
                        ) || in_names(names@, t_enter[q2]@) by {
                            if in_names(t_inner, t_enter[q2]@) {
                                let w = choose|w: int|
                                    0 <= w < t_inner.len() && t_inner[w]@ == t_enter[q2]@;
                                if w < k {
                                    assert(targets@[w]@ == t_enter[q2]@);
                                } else if w == k {
                                    assert(names@.last()@ == t_enter[q2]@);
                                } else {
                                    assert(targets@[w - 1]@ == t_enter[q2]@);
                                }
                            } else {
                                assert(in_names(names_pre, t_enter[q2]@));
                                let m = choose|m: int|
                                    0 <= m < names_pre.len() && names_pre[m]@ == t_enter[q2]@;
                                assert(names@[m]@ == t_enter[q2]@);
                            }
                        }
                    }
                } else {
                    k = k + 1;
                }
            }
            let ghost names_view = names@;
            let g = Group { names, width: seed_w, height: seed_h, img: gimg };
            let ghost gv = g;
            let ghost pre_groups = groups@;
            groups.push(g);
            proof {
                let last = groups@.len() - 1;
                assert(groups@ == pre_groups.push(gv));
                assert(groups@[last] == gv);
                assert(gv.names@ == names_view);
                assert(names_view.len() >= 1);
                assert(pre_groups == groups_enter);
                assert(groups_wf(*self, groups_enter, orig));
                assert forall|g0: int|
                    0 <= g0 < groups@.len() implies (#[trigger] groups@[g0].names@).len() > 0 by {
                    if g0 < pre_groups.len() {
                        assert(groups@[g0] == pre_groups[g0]);
                        assert(groups_enter[g0].names@.len() > 0);
                    } else {
                        assert(groups@[g0] == gv);
                    }
                }
                assert forall|k: int|
                    0 <= k < groups@[last].names@.len() implies in_names(
                    orig,
                    #[trigger] groups@[last].names@[k]@,
                ) by {
                    assert(in_names(t_enter, groups@[last].names@[k]@));
                    let w = choose|w: int|
                        0 <= w < t_enter.len() && t_enter[w]@ == groups@[last].names@[k]@;
                    assert(in_names(orig, t_enter[w]@));
                }
                assert forall|k: int|
                    0 <= k < groups@[last].names@.len() implies self.has_name(
                    #[trigger] groups@[last].names@[k]@,
                ) && key_matches(
                    groups@[last],
                    self.the_output(groups@[last].names@[k]@),
                ) by {
                    assert(self.the_output(groups@[last].names@[k]@).width == seed_w);
                }
                assert forall|g1: int, k1: int, g2: int, k2: int|
                    #![trigger groups@[g1].names@[k1], groups@[g2].names@[k2]]
                    0 <= g1 < groups@.len() && 0 <= k1 < groups@[g1].names@.len() && 0 <= g2
                        < groups@.len() && 0 <= k2 < groups@[g2].names@.len() && (g1 != g2 || k1
                        != k2) implies groups@[g1].names@[k1]@ != groups@[g2].names@[k2]@ by {
                    if g1 < last && g2 < last {
                        assert(pre_groups[g1].names@[k1]@ != pre_groups[g2].names@[k2]@);
                    } else if g1 == last && g2 == last {
                        assert(groups@[last].names@[k1]@ != groups@[last].names@[k2]@);
                    } else if g1 == last {
                        assert(groups@[last].names@[k1]@ != pre_groups[g2].names@[k2]@);
                    } else {
                        assert(groups@[last].names@[k2]@ != pre_groups[g1].names@[k1]@);
                    }
                }
                assert forall|q2: int|
                    0 <= q2 < orig.len() implies in_names(targets@, #[trigger] orig[q2]@)
                    || in_groups(groups@, orig[q2]@) by {
                    if in_names(t_enter, orig[q2]@) {
                        if in_names(targets@, orig[q2]@) {
                        } else {
                            assert(in_names(groups@[groups@.len() - 1].names@, orig[q2]@));
                        }
                    } else if in_groups(pre_groups, orig[q2]@) {
                        let gg = choose|gg: int|
                            0 <= gg < pre_groups.len() && in_names(
                                pre_groups[gg].names@,
                                orig[q2]@,
                            );
                        assert(in_names(groups@[gg].names@, orig[q2]@));
                    }
                }
                assert forall|g1: int, g2: int|
                    0 <= g1 < g2 < groups@.len() implies !key_same(groups@[g1], groups@[g2]) by {
                    if g2 < groups@.len() - 1 {
                        assert(groups@[g1] == pre_groups[g1]);
                        assert(groups@[g2] == pre_groups[g2]);
                        assert(!key_same(pre_groups[g1], pre_groups[g2]));
                    }
                    if g2 == groups@.len() - 1 {
                        let seed_out = self.the_output(seed_view);
                        assert(groups@[g1] == pre_groups[g1]);
                        if key_same(groups@[g1], groups@[g2]) {
                            assert(key_matches(pre_groups[g1], seed_out));
                            assert(t_enter[t_enter.len() - 1]@ == seed_view);
                            assert(!key_matches(
                                groups_enter[g1],
                                self.the_output(t_enter[t_enter.len() - 1]@),
                            ));
                        }
                    }
                }
            }
        }
        proof {
            assert forall|q: int| 0 <= q < orig.len() implies in_groups(
                groups@,
                #[trigger] orig[q]@,
            ) by {
                assert(!in_names(targets@, orig[q]@));
            }
        }
        groups
    }

    /// One line per output, `"<name> - Dimensions: <w>x<h>"`, each line
    /// newline-terminated: the payload of a Query reply.
    pub fn query_reply(&self) -> (r: String)
        ensures
            r@ == query_reply_spec(self.outputs@),
    {
        proof {
            reveal_strlit(" - Dimensions: ");
            reveal_strlit("x");
            reveal_strlit("\n");
        }
        let mut out = String::new();
        let n = self.outputs.len();
        let mut i: usize = 0;
        proof {
            assert(self.outputs@.take(0) =~= Seq::<Output>::empty());
            assert(out@ =~= query_reply_spec(self.outputs@.take(0)));
        }
        while i < n
            invariant
                i <= n,
                n == self.outputs@.len(),
                out@ == query_reply_spec(self.outputs@.take(i as int)),
            decreases n - i,
        {
            let ghost pre = self.outputs@.take(i as int);
            let o = &self.outputs[i];
            out.append(o.name.as_str());
            out.append(" - Dimensions: ");
            crate::textfmt::push_decimal(&mut out, o.width as u64);
            out.append("x");
            crate::textfmt::push_decimal(&mut out, o.height as u64);
            out.append("\n");
            proof {
                reveal_strlit(" - Dimensions: ");
                reveal_strlit("x");
                reveal_strlit("\n");
                assert(self.outputs@.take(i + 1).drop_last() =~= pre);
                assert(self.outputs@.take(i + 1).last() == self.outputs@[i as int]);
            }
            i = i + 1;
        }
        proof {
            assert(self.outputs@.take(n as int) =~= self.outputs@);
        }
        out
    }
}

/// The Query payload for a list of outputs.
pub open spec fn query_reply_spec(s: Seq<Output>) -> Seq<char>
    decreases s.len(),
{
    if s.len() == 0 {
        Seq::empty()
    } else {
        query_reply_spec(s.drop_last()) + query_line(s.last())
    }
}

/// One line of the Query payload.
pub open spec fn query_line(o: Output) -> Seq<char> {
    o.name@ + " - Dimensions: "@ + crate::textfmt::dec_chars(o.width as nat) + "x"@
        + crate::textfmt::dec_chars(o.height as nat) + "\n"@
}

/// The bytes written back to a client: one `Ok` or `Err` line, then the
/// payload, composed in full before anything is sent.
pub fn render_reply(answer: Result<String, String>) -> (r: String)
    ensures
        answer matches Ok(p) ==> r@ == "Ok\n"@ + p@,
        answer matches Err(e) ==> r@ == "Err\n"@ + e@,
{
    match answer {
        Ok(p) => {
            let mut out = String::from_str("Ok\n");
            out.append(p.as_str());
            out
        },
        Err(e) => {
            let mut out = String::from_str("Err\n");
            out.append(e.as_str());
            out
        },
    }
}

impl Daemon {
    /// Deliver one animation frame diff to every output in the tagged
    /// set: the diff is applied in place to each member's buffer, and a
    /// delivery that no longer fits an output (the group was superseded
    /// or resized) is dropped silently for that output.
    pub fn handle_recv_frame(&mut self, outputs: &Vec<String>, frame: &Vec<u8>)
        requires
            old(self).wf(),
        ensures
            final(self).wf(),
            final(self).outputs@.len() == old(self).outputs@.len(),
            forall|i: int|
                0 <= i < old(self).outputs@.len() ==> {
                    let o = old(self).outputs@[i];
                    if in_names(outputs@, o.name@) && codec::diff_wf(
                        frame@,
                        o.buffer@.len() as int,
                    ) {
                        &&& (#[trigger] final(self).outputs@[i]).buffer@ == codec::diff_apply(
                            frame@,
                            o.buffer@,
                        )
                        &&& final(self).outputs@[i].name == o.name
                        &&& final(self).outputs@[i].width == o.width
                        &&& final(self).outputs@[i].height == o.height
                        &&& final(self).outputs@[i].img == o.img
                        &&& final(self).outputs@[i].pending == o.pending
                    } else {
                        final(self).outputs@[i] == o
                    }
                },
    {
        let n = self.outputs.len();
        let mut i: usize = 0;
        while i < n
            invariant
                i <= n,
                n == old(self).outputs@.len(),
                self.outputs@.len() == n,
                old(self).wf(),
                forall|q: int|
                    i <= q < n ==> #[trigger] self.outputs@[q] == old(self).outputs@[q],
                forall|q: int|
                    0 <= q < n ==> (#[trigger] self.outputs@[q]).name == old(
                        self,
                    ).outputs@[q].name,
                forall|q: int| 0 <= q < n ==> (#[trigger] self.outputs@[q]).wf(),
                forall|q: int|
                    0 <= q < i ==> {
                        let o = old(self).outputs@[q];
                        if in_names(outputs@, o.name@) && codec::diff_wf(
                            frame@,
                            o.buffer@.len() as int,
                        ) {
                            &&& (#[trigger] self.outputs@[q]).buffer@ == codec::diff_apply(
                                frame@,
                                o.buffer@,
                            )
                            &&& self.outputs@[q].name == o.name
                            &&& self.outputs@[q].width == o.width
                            &&& self.outputs@[q].height == o.height
                            &&& self.outputs@[q].img == o.img
                            &&& self.outputs@[q].pending == o.pending
                        } else {
                            self.outputs@[q] == o
                        }
                    },
            decreases n - i,
        {
            let ghost cur = self.outputs@;
            let targeted = contains_name(outputs, self.outputs[i].name.as_str());
            if targeted {
                let fits = codec::is_valid_diff(frame, self.outputs[i].buffer.len());
                if fits {
                    let o = &mut self.outputs[i];
                    o.animate(frame);
                    proof {
                        assert(self.outputs@ =~= cur.update(i as int, self.outputs@[i as int]));
                    }
                }
            }
            proof {
                assert forall|q: int| 0 <= q < self.outputs@.len() implies #[trigger] self
                    .outputs@[q].wf() by {
                    if q != i {
                        assert(self.outputs@[q] == cur[q]);
                    }
                }
            }
            i = i + 1;
        }
    }

    /// Show one processed image on every output in the set, recording
    /// the identity it was processed from; an output whose pool no
    /// longer matches the buffer is skipped.
    pub fn handle_recv_img(&mut self, outputs: &Vec<String>, id: &ImgId, img: &Vec<u8>)
        requires
            old(self).wf(),
        ensures
            final(self).wf(),
            final(self).outputs@.len() == old(self).outputs@.len(),
            forall|i: int|
                0 <= i < old(self).outputs@.len() ==> {
                    let o = old(self).outputs@[i];
                    if in_names(outputs@, o.name@) && img@.len() == o.buffer@.len() {
                        &&& (#[trigger] final(self).outputs@[i]).buffer@ == img@
                        &&& final(self).outputs@[i].img matches Some(nid) && nid.same(*id)
                        &&& final(self).outputs@[i].name == o.name
                        &&& final(self).outputs@[i].width == o.width
                        &&& final(self).outputs@[i].height == o.height
                        &&& final(self).outputs@[i].pending == o.pending
                    } else {
                        final(self).outputs@[i] == o
                    }
                },
    {
        let n = self.outputs.len();
        let mut i: usize = 0;
        while i < n
            invariant
                i <= n,
                n == old(self).outputs@.len(),
                self.outputs@.len() == n,
                old(self).wf(),
                forall|q: int|
                    i <= q < n ==> #[trigger] self.outputs@[q] == old(self).outputs@[q],
                forall|q: int|
                    0 <= q < n ==> (#[trigger] self.outputs@[q]).name == old(
                        self,
                    ).outputs@[q].name,
                forall|q: int| 0 <= q < n ==> (#[trigger] self.outputs@[q]).wf(),
                forall|q: int|
                    0 <= q < i ==> {
                        let o = old(self).outputs@[q];
                        if in_names(outputs@, o.name@) && img@.len() == o.buffer@.len() {
                            &&& (#[trigger] self.outputs@[q]).buffer@ == img@
                            &&& self.outputs@[q].img matches Some(nid) && nid.same(*id)
                            &&& self.outputs@[q].name == o.name
                            &&& self.outputs@[q].width == o.width
                            &&& self.outputs@[q].height == o.height
                            &&& self.outputs@[q].pending == o.pending
                        } else {
                            self.outputs@[q] == o
                        }
                    },
            decreases n - i,
        {
            let ghost cur = self.outputs@;
            let targeted = contains_name(outputs, self.outputs[i].name.as_str());
            if targeted && img.len() == self.outputs[i].buffer.len() {
                let nid = id.duplicate();
                let o = &mut self.outputs[i];
                o.draw(img);
                o.img = Some(nid);
                proof {
                    assert(self.outputs@ =~= cur.update(i as int, self.outputs@[i as int]));
                }
            }
            proof {
                assert forall|q: int| 0 <= q < self.outputs@.len() implies #[trigger] self
                    .outputs@[q].wf() by {
                    if q != i {
                        assert(self.outputs@[q] == cur[q]);
                    }
                }
            }
            i = i + 1;
        }
    }
}


/// A solid one-color BGRA buffer for a `w` by `h` output.
pub open spec fn solid_spec(w: int, h: int, cr: u8, cg: u8, cb: u8) -> Seq<u8> {
    crate::imgproc::resize::compose_spec(Seq::empty(), 0, 0, 0, 0, 0, 0, 0, w, h, cr, cg, cb)
}

/// Build the solid buffer a Clear request paints an output with.
fn solid_buffer(w: u32, h: u32, color: &[u8; 3]) -> (r: Vec<u8>)
    requires
        4 * (w as int) * (h as int) <= usize::MAX,
    ensures
        r@ == solid_spec(w as int, h as int, color[0], color[1], color[2]),
        r@.len() == 4 * (w as int) * (h as int),
{
    let empty: Vec<u8> = Vec::new();
    crate::imgproc::resize::compose_bgra(
        &empty,
        0,
        0,
        0,
        0,
        0,
        0,
        0,
        0,
        w,
        h,
        color[0],
        color[1],
        color[2],
    )
}

/// The named output is addressed by a request whose output list reads
/// `sspec`: an empty list addresses every output, a non-empty list
/// addresses the outputs named by its comma-separated elements.
pub open spec fn is_target(d: Daemon, sspec: Seq<char>, n: Seq<char>) -> bool {
    d.has_name(n) && (sspec.len() == 0 || is_token(sspec, n))
}

/// Whether a request's output list addresses any output at all; when it
/// does not, the request is answered with an error and the pipeline is
/// never invoked.
pub open spec fn any_target(d: Daemon, sspec: Seq<char>) -> bool {
    exists|i: int| 0 <= i < d.outputs@.len() && is_target(d, sspec, d.outputs@[i].name@)
}

impl Daemon {
    /// Resolve a request's output list to the names it addresses,
    /// duplicate-free.
    pub fn resolve_targets(&self, outputs: &str) -> (r: Vec<String>)
        requires
            self.wf(),
        ensures
            forall|q: int|
                0 <= q < r@.len() ==> is_target(*self, outputs@, #[trigger] r@[q]@),
            forall|n: Seq<char>|
                #![trigger is_target(*self, outputs@, n)]
                is_target(*self, outputs@, n) ==> in_names(r@, n),
            forall|a: int, b: int| 0 <= a < b < r@.len() ==> r@[a]@ != r@[b]@,
            (r@.len() > 0) == any_target(*self, outputs@),
    {
        let r = self.find_targets(outputs);
        proof {
            if outputs@.len() == 0 {
                assert forall|q: int| 0 <= q < r@.len() implies is_target(
                    *self,
                    outputs@,
                    #[trigger] r@[q]@,
                ) by {
                    assert(self.outputs@[q].name@ == r@[q]@);
                }
                assert forall|n: Seq<char>| is_target(*self, outputs@, n) implies in_names(
                    r@,
                    n,
                ) by {
                    let i = choose|i: int|
                        0 <= i < self.outputs@.len() && self.outputs@[i].name@ == n;
                    assert(r@[i]@ == n);
                }
            }
            if r@.len() > 0 {
                let n0 = r@[0]@;
                assert(is_target(*self, outputs@, n0));
                let i = choose|i: int|
                    0 <= i < self.outputs@.len() && self.outputs@[i].name@ == n0;
                assert(is_target(*self, outputs@, self.outputs@[i].name@));
            }
            if any_target(*self, outputs@) {
                let i = choose|i: int|
                    0 <= i < self.outputs@.len() && is_target(
                        *self,
                        outputs@,
                        self.outputs@[i].name@,
                    );
                assert(in_names(r@, self.outputs@[i].name@));
            }
        }
        r
    }

    /// Show one buffer on every named output and record the identity it
    /// came from.  The caller guarantees the buffer fits each member's
    /// pool.
    fn apply_buffer(&mut self, names: &Vec<String>, buf: &Vec<u8>, newimg: &Option<ImgId>)
        requires
            old(self).wf(),
            forall|m: int|
                0 <= m < names@.len() ==> old(self).has_name(#[trigger] names@[m]@) && buf@.len()
                    == old(self).the_output(names@[m]@).buffer@.len(),
        ensures
            final(self).wf(),
            final(self).outputs@.len() == old(self).outputs@.len(),
            forall|i: int|
                0 <= i < old(self).outputs@.len() ==> {
                    let o = old(self).outputs@[i];
                    let f = #[trigger] final(self).outputs@[i];
                    &&& f.name == o.name
                    &&& f.width == o.width
                    &&& f.height == o.height
                    &&& f.pending == o.pending
                    &&& if in_names(names@, o.name@) {
                        f.buffer@ == buf@ && img_opt_same(f.img, *newimg)
                    } else {
                        f == o
                    }
                },
    {
        let n = self.outputs.len();
        let mut i: usize = 0;
        while i < n
            invariant
                i <= n,
                n == old(self).outputs@.len(),
                self.outputs@.len() == n,
                old(self).wf(),
                forall|m: int|
                    0 <= m < names@.len() ==> old(self).has_name(#[trigger] names@[m]@)
                        && buf@.len() == old(self).the_output(names@[m]@).buffer@.len(),
                forall|q: int|
                    i <= q < n ==> #[trigger] self.outputs@[q] == old(self).outputs@[q],
                forall|q: int|
                    0 <= q < n ==> (#[trigger] self.outputs@[q]).name == old(
                        self,
                    ).outputs@[q].name,
                forall|q: int| 0 <= q < n ==> (#[trigger] self.outputs@[q]).wf(),
                forall|q: int|
                    0 <= q < i ==> {
                        let o = old(self).outputs@[q];
                        let f = #[trigger] self.outputs@[q];
                        &&& f.name == o.name
                        &&& f.width == o.width
                        &&& f.height == o.height
                        &&& f.pending == o.pending
                        &&& if in_names(names@, o.name@) {
                            f.buffer@ == buf@ && img_opt_same(f.img, *newimg)
                        } else {
                            f == o
                        }
                    },
            decreases n - i,
        {
            let ghost cur = self.outputs@;
            let targeted = contains_name(names, self.outputs[i].name.as_str());
            if targeted {
                proof {
                    let m = choose|m: int|
                        0 <= m < names@.len() && names@[m]@ == cur[i as int].name@;
                    old(self).lemma_named(i as int);
                    assert(buf@.len() == old(self).the_output(names@[m]@).buffer@.len());
                }
                let nid = dup_opt_img(newimg);
                let o = &mut self.outputs[i];
                o.draw(buf);
                o.img = nid;
                proof {
                    assert(self.outputs@ =~= cur.update(i as int, self.outputs@[i as int]));
                }
            }
            proof {
                assert forall|q: int| 0 <= q < self.outputs@.len() implies #[trigger] self
                    .outputs@[q].wf() by {
                    if q != i {
                        assert(self.outputs@[q] == cur[q]);
                    }
                }
            }
            i = i + 1;
        }
    }

    /// Fill every targeted output with a solid color, clearing its image
    /// identity.  An output list that matches nothing is a request-level
    /// error and leaves the pipeline untouched.
    #[verifier::rlimit(100)]
    pub fn handle_clear(&mut self, clear: &crate::cli::Clear) -> (r: Result<String, String>)
        requires
            old(self).wf(),
        ensures
            final(self).wf(),
            (r is Ok) == any_target(*old(self), clear.outputs@),
            r matches Ok(p) ==> p@.len() == 0,
            r is Err ==> *final(self) == *old(self),
            final(self).outputs@.len() == old(self).outputs@.len(),
            forall|i: int|
                0 <= i < old(self).outputs@.len() ==> {
                    let o = old(self).outputs@[i];
                    let f = #[trigger] final(self).outputs@[i];
                    &&& f.name == o.name
                    &&& f.width == o.width
                    &&& f.height == o.height
                    &&& f.pending == o.pending
                    &&& if r is Ok && is_target(*old(self), clear.outputs@, o.name@) {
                        f.buffer@ == solid_spec(
                            o.width as int,
                            o.height as int,
                            clear.color[0],
                            clear.color[1],
                            clear.color[2],
                        ) && f.img is None
                    } else {
                        f == o
                    }
                },
    {
        let targets = self.resolve_targets(clear.outputs.as_str());
        if targets.len() == 0 {
            return Err(String::from_str("None of the outputs sent are valid."));
        }
        let ghost tview = targets@;
        let ghost sspec = clear.outputs@;
        let ghost pre = *self;
        let groups = self.group_targets(targets);
        let ng = groups.len();
        let mut g: usize = 0;
        while g < ng
            invariant
                pre == *old(self),
                old(self).wf(),
                self.wf(),
                g <= ng,
                ng == groups@.len(),
                groups_wf(*old(self), groups@, tview),
                forall|q: int| 0 <= q < tview.len() ==> in_groups(groups@, #[trigger] tview[q]@),
                forall|q: int|
                    0 <= q < tview.len() ==> is_target(*old(self), sspec, #[trigger] tview[q]@),
                forall|n: Seq<char>|
                    #![trigger is_target(*old(self), sspec, n)]
                    is_target(*old(self), sspec, n) ==> in_names(tview, n),
                self.outputs@.len() == old(self).outputs@.len(),
                forall|i: int|
                    0 <= i < old(self).outputs@.len() ==> {
                        let o = old(self).outputs@[i];
                        let f = #[trigger] self.outputs@[i];
                        &&& f.name == o.name
                        &&& f.width == o.width
                        &&& f.height == o.height
                        &&& f.pending == o.pending
                        &&& if in_groups(groups@.take(g as int), o.name@) {
                            f.buffer@ == solid_spec(
                                o.width as int,
                                o.height as int,
                                clear.color[0],
                                clear.color[1],
                                clear.color[2],
                            ) && f.img is None
                        } else {
                            f == o
                        }
                    },
            decreases ng - g,
        {
            let ghost dpre = *self;
            let gw = groups[g].width;
            let gh = groups[g].height;
            proof {
                assert(groups@[g as int].names@.len() > 0);
                let n0 = groups@[g as int].names@[0]@;
                assert(old(self).has_name(n0));
                let oi = old(self).index_of(n0);
                assert(old(self).outputs@[oi].wf());
                assert(key_matches(groups@[g as int], old(self).the_output(n0)));
            }
            let solid = solid_buffer(gw, gh, &clear.color);
            proof {
                assert forall|m: int|
                    0 <= m < groups@[g as int].names@.len() implies self.has_name(
                    #[trigger] groups@[g as int].names@[m]@,
                ) && solid@.len() == self.the_output(groups@[g as int].names@[m]@).buffer@.len() by {
                    let nm = groups@[g as int].names@[m]@;
                    assert(old(self).has_name(nm));
                    let oi = old(self).index_of(nm);
                    assert(old(self).outputs@[oi].name@ == nm);
                    assert(self.outputs@[oi].name@ == nm);
                    assert(self.has_name(nm));
                    assert(key_matches(groups@[g as int], old(self).the_output(nm)));
                    let ci = self.index_of(nm);
                    assert(self.outputs@[ci].name@ == nm);
                    assert(ci == oi) by {
                        if ci < oi {
                            assert(self.outputs@[ci].name@ != self.outputs@[oi].name@);
                        } else if oi < ci {
                            assert(self.outputs@[oi].name@ != self.outputs@[ci].name@);
                        }
                    }
                    assert(self.outputs@[oi].width == old(self).outputs@[oi].width);
                    assert(self.outputs@[oi].wf());
                    assert(self.the_output(nm).buffer@.len() == 4 * (gw as int) * (gh as int));
                }
            }
            let none_img: Option<ImgId> = None;
            self.apply_buffer(&groups[g].names, &solid, &none_img);
            proof {
                assert forall|i: int|
                    0 <= i < old(self).outputs@.len() implies {
                    let o = old(self).outputs@[i];
                    let f = #[trigger] self.outputs@[i];
                    &&& f.name == o.name
                    &&& f.width == o.width
                    &&& f.height == o.height
                    &&& f.pending == o.pending
                    &&& if in_groups(groups@.take(g + 1), o.name@) {
                        f.buffer@ == solid_spec(
                            o.width as int,
                            o.height as int,
                            clear.color[0],
                            clear.color[1],
                            clear.color[2],
                        ) && f.img is None
                    } else {
                        f == o
                    }
                } by {
                    let o = old(self).outputs@[i];
                    let f = self.outputs@[i];
                    let d = dpre.outputs@[i];
                    if in_names(groups@[g as int].names@, o.name@) {
                        let m = choose|m: int|
                            0 <= m < groups@[g as int].names@.len()
                                && groups@[g as int].names@[m]@ == o.name@;
                        assert(key_matches(
                            groups@[g as int],
                            old(self).the_output(groups@[g as int].names@[m]@),
                        ));
                        old(self).lemma_named(i);
                        assert(o.width == gw && o.height == gh);
                        assert(in_groups(groups@.take(g + 1), o.name@)) by {
                            assert(groups@.take(g + 1)[g as int] == groups@[g as int]);
                        }
                    } else {
                        if in_groups(groups@.take(g + 1), o.name@) {
                            let gg = choose|gg: int|
                                0 <= gg < groups@.take(g + 1).len() && #[trigger] in_names(
                                    groups@.take(g + 1)[gg].names@,
                                    o.name@,
                                );
                            if gg < g {
                                assert(in_groups(groups@.take(g as int), o.name@)) by {
                                    assert(groups@.take(g as int)[gg] == groups@[gg]);
                                    assert(in_names(groups@.take(g as int)[gg].names@, o.name@));
                                }
                            } else {
                                assert(in_names(groups@[g as int].names@, o.name@));
                            }
                        } else {
                            if in_groups(groups@.take(g as int), o.name@) {
                                let gg = choose|gg: int|
                                    0 <= gg < groups@.take(g as int).len() && #[trigger] in_names(
                                        groups@.take(g as int)[gg].names@,
                                        o.name@,
                                    );
                                assert(in_names(groups@.take(g + 1)[gg].names@, o.name@));
                            }
                        }
                    }
                }
            }
            g = g + 1;
        }
        proof {
            assert(groups@.take(ng as int) =~= groups@);
            assert forall|i: int|
                0 <= i < old(self).outputs@.len() && is_target(
                    *old(self),
                    sspec,
                    old(self).outputs@[i].name@,
                ) implies in_groups(groups@, old(self).outputs@[i].name@) by {
                let nm = old(self).outputs@[i].name@;
                assert(in_names(tview, nm));
                let q = choose|q: int| 0 <= q < tview.len() && tview[q]@ == nm;
                assert(in_groups(groups@, tview[q]@));
            }
            assert forall|i: int|
                0 <= i < old(self).outputs@.len() && in_groups(
                    groups@,
                    old(self).outputs@[i].name@,
                ) implies is_target(*old(self), sspec, old(self).outputs@[i].name@) by {
                let nm = old(self).outputs@[i].name@;
                let gg = choose|gg: int|
                    0 <= gg < groups@.len() && in_names(groups@[gg].names@, nm);
                let m = choose|m: int|
                    0 <= m < groups@[gg].names@.len() && groups@[gg].names@[m]@ == nm;
                assert(in_names(tview, groups@[gg].names@[m]@));
                let q = choose|q: int| 0 <= q < tview.len() && tview[q]@ == nm;
                assert(is_target(*old(self), sspec, tview[q]@));
            }
            assert(any_target(*old(self), sspec)) by {
                assert(tview.len() > 0);
                assert(is_target(*old(self), sspec, tview[0]@));
                let i = choose|i: int|
                    0 <= i < old(self).outputs@.len() && old(self).outputs@[i].name@ == tview[0]@;
                assert(is_target(*old(self), sspec, old(self).outputs@[i].name@));
            }
            assert forall|i: int|
                0 <= i < old(self).outputs@.len() implies (if is_target(
                *old(self),
                sspec,
                old(self).outputs@[i].name@,
            ) {
                in_groups(groups@.take(ng as int), old(self).outputs@[i].name@)
            } else {
                !in_groups(groups@.take(ng as int), old(self).outputs@[i].name@)
            }) by {
                assert(groups@.take(ng as int) == groups@);
            }
        }
        Ok(String::new())
    }
}


/// The resize operation an `Img` request selects for one output size.
pub open spec fn op_spec(img: crate::cli::Img, w: u32, h: u32) -> ResizeOperation {
    match img.resize {
        crate::cli::ResizeStrategy::No => ResizeOperation::Pad {
            dimensions: (w, h),
            color: img.fill_color,
        },
        crate::cli::ResizeStrategy::Crop => ResizeOperation::ResizeCrop {
            dimensions: (w, h),
            filter: img.filter,
        },
        crate::cli::ResizeStrategy::Fit => ResizeOperation::ResizeFit {
            dimensions: (w, h),
            filter: img.filter,
            padding_color: img.fill_color,
        },
    }
}

/// The image identity an `Img` request stamps on the outputs it paints.
pub open spec fn req_id(img: crate::cli::Img) -> ImgId {
    ImgId { path: img.path, resize: img.resize, filter: img.filter, fill_color: img.fill_color }
}

impl Daemon {
    /// Process an `Img` request against one decoded frame: resolve the
    /// targets, run the pipeline once per group of outputs sharing
    /// dimensions and identity, and show the result on every member,
    /// recording the new identity.  A list that matches nothing, or a
    /// targeted output whose dimensions the strategy cannot serve, is a
    /// request-level error that leaves every output untouched.
    #[verifier::rlimit(100)]
    pub fn handle_img(&mut self, img: &crate::cli::Img, decoded: &RawImg) -> (r: Result<
        String,
        String,
    >)
        requires
            old(self).wf(),
            decoded.wf(),
        ensures
            final(self).wf(),
            final(self).outputs@.len() == old(self).outputs@.len(),
            (r is Ok) == (any_target(*old(self), img.outputs@) && (forall|i: int|
                0 <= i < old(self).outputs@.len() && is_target(
                    *old(self),
                    img.outputs@,
                    (#[trigger] old(self).outputs@[i]).name@,
                ) ==> crate::imgproc::resize::strategy_req(
                    img.resize,
                    decoded.width as int,
                    decoded.height as int,
                    old(self).outputs@[i].width as int,
                    old(self).outputs@[i].height as int,
                ))),
            r matches Ok(p) ==> p@.len() == 0,
            r is Err ==> *final(self) == *old(self),
            forall|i: int|
                0 <= i < old(self).outputs@.len() ==> {
                    let o = old(self).outputs@[i];
                    let f = #[trigger] final(self).outputs@[i];
                    &&& f.name == o.name
                    &&& f.width == o.width
                    &&& f.height == o.height
                    &&& f.pending == o.pending
                    &&& if r is Ok && is_target(*old(self), img.outputs@, o.name@) {
                        f.buffer@ == op_spec(*img, o.width, o.height).result_spec(*decoded)
                            && (f.img matches Some(nid) && nid.same(req_id(*img)))
                    } else {
                        f == o
                    }
                },
    {
        let targets = self.resolve_targets(img.outputs.as_str());
        if targets.len() == 0 {
            proof {
                assert(!any_target(*old(self), img.outputs@));
            }
            return Err(String::from_str("None of the outputs sent are valid."));
        }
        let ghost tview = targets@;
        let ghost sspec = img.outputs@;
        let groups = self.group_targets(targets);
        let ng = groups.len();
        let sw = decoded.width;
        let sh = decoded.height;
        let mut g: usize = 0;
        while g < ng
            invariant
                g <= ng,
                ng == groups@.len(),
                self.wf(),
                sspec == img.outputs@,
                sw == decoded.width,
                sh == decoded.height,
                groups_wf(*self, groups@, tview),
                forall|gg: int|
                    0 <= gg < g ==> crate::imgproc::resize::strategy_req(
                        img.resize,
                        sw as int,
                        sh as int,
                        (#[trigger] groups@[gg]).width as int,
                        groups@[gg].height as int,
                    ),
                forall|q: int|
                    0 <= q < tview.len() ==> is_target(*self, sspec, #[trigger] tview[q]@),
            decreases ng - g,
        {
            let gw = groups[g].width;
            let gh = groups[g].height;
            proof {
                assert(groups@[g as int].names@.len() > 0);
                let n0 = groups@[g as int].names@[0]@;
                assert(self.has_name(n0));
                let oi = self.index_of(n0);
                assert(self.outputs@[oi].wf());
                assert(key_matches(groups@[g as int], self.the_output(n0)));
            }
            let ok = crate::imgproc::resize::strategy_ok(img.resize, sw, sh, gw, gh);
            if !ok {
                proof {
                    let n0 = groups@[g as int].names@[0]@;
                    let oi = self.index_of(n0);
                    assert(in_names(tview, n0));
                    assert(is_target(*self, sspec, n0)) by {
                        let q = choose|q: int| 0 <= q < tview.len() && tview[q]@ == n0;
                        assert(is_target(*self, sspec, tview[q]@));
                    }
                    assert(is_target(*self, sspec, self.outputs@[oi].name@));
                    assert(self.outputs@[oi].width == gw && self.outputs@[oi].height == gh);
                    assert(*self == *old(self));
                    assert(old(self).outputs@ == self.outputs@);
                    let nm0 = self.outputs@[oi].name@;
                    assert(old(self).outputs@[oi].name@ == nm0);
                    assert(old(self).has_name(nm0));
                    assert(is_target(*old(self), img.outputs@, old(self).outputs@[oi].name@)) by {
                        assert(nm0 == old(self).outputs@[oi].name@);
                        assert(is_target(*self, sspec, nm0));
                        assert(*self == *old(self));
                        assert(sspec == img.outputs@);
                        assert(is_target(*self, img.outputs@, nm0));
                    }
                    assert(!crate::imgproc::resize::strategy_req(
                        img.resize,
                        decoded.width as int,
                        decoded.height as int,
                        old(self).outputs@[oi].width as int,
                        old(self).outputs@[oi].height as int,
                    ));
                }
                return Err(String::from_str("failed to resize image for the output's dimensions"));
            }
            g = g + 1;
        }
        let rid = ImgId {
            path: img.path.clone(),
            resize: img.resize,
            filter: img.filter,
            fill_color: img.fill_color,
        };
        let rid_opt: Option<ImgId> = Some(rid);
        let ghost pre = *self;
        let mut k: usize = 0;
        while k < ng
            invariant
                k <= ng,
                ng == groups@.len(),
                pre == *old(self),
                old(self).wf(),
                self.wf(),
                decoded.wf(),
                sw == decoded.width,
                sh == decoded.height,
                groups_wf(*old(self), groups@, tview),
                forall|gg: int|
                    0 <= gg < ng ==> crate::imgproc::resize::strategy_req(
                        img.resize,
                        sw as int,
                        sh as int,
                        (#[trigger] groups@[gg]).width as int,
                        groups@[gg].height as int,
                    ),
                img_opt_same(rid_opt, Some(req_id(*img))),
                self.outputs@.len() == old(self).outputs@.len(),
                forall|i: int|
                    0 <= i < old(self).outputs@.len() ==> {
                        let o = old(self).outputs@[i];
                        let f = #[trigger] self.outputs@[i];
                        &&& f.name == o.name
                        &&& f.width == o.width
                        &&& f.height == o.height
                        &&& f.pending == o.pending
                        &&& if in_groups(groups@.take(k as int), o.name@) {
                            f.buffer@ == op_spec(*img, o.width, o.height).result_spec(*decoded)
                                && (f.img matches Some(nid) && nid.same(req_id(*img)))
                        } else {
                            f == o
                        }
                    },
            decreases ng - k,
        {
            let ghost dpre = *self;
            let gw = groups[k].width;
            let gh = groups[k].height;
            let op = ResizeOperation::new(img, (gw, gh));
            let copy = RawImg {
                width: decoded.width,
                height: decoded.height,
                pixels: vstd::slice::slice_to_vec(decoded.pixels.as_slice()),
            };
            proof {
                assert(groups@[k as int].names@.len() > 0);
                let n0 = groups@[k as int].names@[0]@;
                assert(old(self).has_name(n0));
                let oi = old(self).index_of(n0);
                assert(old(self).outputs@[oi].wf());
                assert(key_matches(groups@[k as int], old(self).the_output(n0)));
                assert(op == op_spec(*img, gw, gh));
                assert(op.req(copy)) by {
                    assert(crate::imgproc::resize::strategy_req(
                        img.resize,
                        sw as int,
                        sh as int,
                        gw as int,
                        gh as int,
                    ));
                }
            }
            let buf = match op.resize(copy) {
                Ok(v) => v,
                Err(_) => unreached(),
            };
            proof {
                crate::imgproc::resize::lemma_result_len(op, copy);
                assert(copy.pixels@ == decoded.pixels@);
                assert(op.result_spec(copy) == op.result_spec(*decoded));
                assert forall|m: int|
                    0 <= m < groups@[k as int].names@.len() implies self.has_name(
                    #[trigger] groups@[k as int].names@[m]@,
                ) && buf@.len() == self.the_output(groups@[k as int].names@[m]@).buffer@.len() by {
                    let nm = groups@[k as int].names@[m]@;
                    assert(old(self).has_name(nm));
                    let oi = old(self).index_of(nm);
                    assert(old(self).outputs@[oi].name@ == nm);
                    assert(self.outputs@[oi].name@ == nm);
                    assert(self.has_name(nm));
                    assert(key_matches(groups@[k as int], old(self).the_output(nm)));
                    let ci = self.index_of(nm);
                    assert(self.outputs@[ci].name@ == nm);
                    assert(ci == oi) by {
                        if ci < oi {
                            assert(self.outputs@[ci].name@ != self.outputs@[oi].name@);
                        } else if oi < ci {
                            assert(self.outputs@[oi].name@ != self.outputs@[ci].name@);
                        }
                    }
                    assert(self.outputs@[oi].width == old(self).outputs@[oi].width);
                    assert(self.outputs@[oi].wf());
                    assert(self.the_output(nm).buffer@.len() == 4 * (gw as int) * (gh as int));
                }
            }
            self.apply_buffer(&groups[k].names, &buf, &rid_opt);
            proof {
                assert forall|i: int|
                    0 <= i < old(self).outputs@.len() implies {
                    let o = old(self).outputs@[i];
                    let f = #[trigger] self.outputs@[i];
                    &&& f.name == o.name
                    &&& f.width == o.width
                    &&& f.height == o.height
                    &&& f.pending == o.pending
                    &&& if in_groups(groups@.take(k + 1), o.name@) {
                        f.buffer@ == op_spec(*img, o.width, o.height).result_spec(*decoded) && (
                        f.img matches Some(nid) && nid.same(req_id(*img)))
                    } else {
                        f == o
                    }
                } by {
                    let o = old(self).outputs@[i];
                    let f = self.outputs@[i];
                    if in_names(groups@[k as int].names@, o.name@) {
                        let m = choose|m: int|
                            0 <= m < groups@[k as int].names@.len()
                                && groups@[k as int].names@[m]@ == o.name@;
                        assert(key_matches(
                            groups@[k as int],
                            old(self).the_output(groups@[k as int].names@[m]@),
                        ));
                        old(self).lemma_named(i);
                        assert(o.width == gw && o.height == gh);
                        assert(in_groups(groups@.take(k + 1), o.name@)) by {
                            assert(groups@.take(k + 1)[k as int] == groups@[k as int]);
                        }
                    } else {
                        if in_groups(groups@.take(k + 1), o.name@) {
                            let gg = choose|gg: int|
                                0 <= gg < groups@.take(k + 1).len() && #[trigger] in_names(
                                    groups@.take(k + 1)[gg].names@,
                                    o.name@,
                                );
                            if gg < k {
                                assert(in_groups(groups@.take(k as int), o.name@)) by {
                                    assert(groups@.take(k as int)[gg] == groups@[gg]);
                                    assert(in_names(groups@.take(k as int)[gg].names@, o.name@));
                                }
                            } else {
                                assert(in_names(groups@[k as int].names@, o.name@));
                            }
                        } else {
                            if in_groups(groups@.take(k as int), o.name@) {
                                let gg = choose|gg: int|
                                    0 <= gg < groups@.take(k as int).len() && #[trigger] in_names(
                                        groups@.take(k as int)[gg].names@,
                                        o.name@,
                                    );
                                assert(in_names(groups@.take(k + 1)[gg].names@, o.name@));
                            }
                        }
                    }
                }
            }
            k = k + 1;
        }
        proof {
            assert(groups@.take(ng as int) == groups@);
            assert forall|i: int|
                0 <= i < old(self).outputs@.len() && is_target(
                    *old(self),
                    sspec,
                    (#[trigger] old(self).outputs@[i]).name@,
                ) implies in_groups(groups@, old(self).outputs@[i].name@)
                && crate::imgproc::resize::strategy_req(
                img.resize,
                sw as int,
                sh as int,
                old(self).outputs@[i].width as int,
                old(self).outputs@[i].height as int,
            ) by {
                let nm = old(self).outputs@[i].name@;
                assert(in_names(tview, nm));
                let q = choose|q: int| 0 <= q < tview.len() && tview[q]@ == nm;
                assert(in_groups(groups@, tview[q]@));
                let gg = choose|gg: int|
                    0 <= gg < groups@.len() && #[trigger] in_names(groups@[gg].names@, nm);
                let m = choose|m: int|
                    0 <= m < groups@[gg].names@.len() && groups@[gg].names@[m]@ == nm;
                assert(key_matches(groups@[gg], old(self).the_output(groups@[gg].names@[m]@)));
                old(self).lemma_named(i);
                assert(old(self).outputs@[i].width == groups@[gg].width);
                assert(crate::imgproc::resize::strategy_req(
                    img.resize,
                    sw as int,
                    sh as int,
                    groups@[gg].width as int,
                    groups@[gg].height as int,
                ));
            }
            assert forall|i: int|
                0 <= i < old(self).outputs@.len() && in_groups(
                    groups@,
                    (#[trigger] old(self).outputs@[i]).name@,
                ) implies is_target(*old(self), sspec, old(self).outputs@[i].name@) by {
                let nm = old(self).outputs@[i].name@;
                let gg = choose|gg: int|
                    0 <= gg < groups@.len() && #[trigger] in_names(groups@[gg].names@, nm);
                let m = choose|m: int|
                    0 <= m < groups@[gg].names@.len() && groups@[gg].names@[m]@ == nm;
                assert(in_names(tview, groups@[gg].names@[m]@));
                let q = choose|q: int| 0 <= q < tview.len() && tview[q]@ == nm;
                assert(is_target(*old(self), sspec, tview[q]@));
            }
            assert(any_target(*old(self), sspec)) by {
                assert(tview.len() > 0);
                assert(is_target(*old(self), sspec, tview[0]@));
                let i = choose|i: int|
                    0 <= i < old(self).outputs@.len() && old(self).outputs@[i].name@ == tview[0]@;
                assert(is_target(*old(self), sspec, old(self).outputs@[i].name@));
            }
        }
        Ok(String::new())
    }
}


/// Two outputs that would coalesce into one processing job: same
/// dimensions, same current image identity.
pub open spec fn out_key_same(o1: Output, o2: Output) -> bool {
    &&& o1.width == o2.width
    &&& o1.height == o2.height
    &&& img_opt_same(o1.img, o2.img)
}

/// For any target set in which the first two outputs share dimensions
/// and image identity while the third differs, grouping yields exactly
/// two jobs: one holding the pair and one holding the third alone.
pub proof fn lemma_grouping_pair_and_single(d: Daemon, gs: Seq<Group>, ts: Seq<String>)
    requires
        groups_wf(d, gs, ts),
        forall|q: int| 0 <= q < ts.len() ==> in_groups(gs, #[trigger] ts[q]@),
        ts.len() == 3,
        ts[0]@ != ts[1]@ && ts[0]@ != ts[2]@ && ts[1]@ != ts[2]@,
        out_key_same(d.the_output(ts[0]@), d.the_output(ts[1]@)),
        !out_key_same(d.the_output(ts[0]@), d.the_output(ts[2]@)),
    ensures
        gs.len() == 2,
        exists|gab: int, gc: int|
            {
                &&& 0 <= gab < 2 && 0 <= gc < 2 && gab != gc
                &&& (#[trigger] gs[gab].names@).len() == 2
                &&& in_names(gs[gab].names@, ts[0]@)
                &&& in_names(gs[gab].names@, ts[1]@)
                &&& (#[trigger] gs[gc].names@).len() == 1
                &&& gs[gc].names@[0]@ == ts[2]@
            },
{
    assert(in_groups(gs, ts[0]@));
    assert(in_groups(gs, ts[1]@));
    assert(in_groups(gs, ts[2]@));
    let ga = choose|g: int| 0 <= g < gs.len() && #[trigger] in_names(gs[g].names@, ts[0]@);
    let gb = choose|g: int| 0 <= g < gs.len() && #[trigger] in_names(gs[g].names@, ts[1]@);
    let gc = choose|g: int| 0 <= g < gs.len() && #[trigger] in_names(gs[g].names@, ts[2]@);
    let ka = choose|k: int| 0 <= k < gs[ga].names@.len() && gs[ga].names@[k]@ == ts[0]@;
    let kb = choose|k: int| 0 <= k < gs[gb].names@.len() && gs[gb].names@[k]@ == ts[1]@;
    let kc = choose|k: int| 0 <= k < gs[gc].names@.len() && gs[gc].names@[k]@ == ts[2]@;
    assert(key_matches(gs[ga], d.the_output(gs[ga].names@[ka]@)));
    assert(key_matches(gs[gb], d.the_output(gs[gb].names@[kb]@)));
    assert(key_matches(gs[gc], d.the_output(gs[gc].names@[kc]@)));
    assert(key_same(gs[ga], gs[gb]));
    assert(ga == gb) by {
        if ga < gb {
            assert(!key_same(gs[ga], gs[gb]));
        } else if gb < ga {
            assert(!key_same(gs[gb], gs[ga]));
        }
    }
    assert(ga != gc) by {
        if ga == gc {
            assert(key_same(gs[ga], gs[gc]));
            assert(out_key_same(d.the_output(ts[0]@), d.the_output(ts[2]@)));
        }
    }
    // every group holds one of the three targets, and the targets sit
    // in ga and gc only, so there is no third group
    assert(gs.len() == 2) by {
        assert(gs.len() >= 2);
        if gs.len() > 2 {
            let other: int = if ga != 0 && gc != 0 {
                0
            } else if ga != 1 && gc != 1 {
                1
            } else {
                2
            };
            assert(0 <= other < gs.len() && other != ga && other != gc);
            assert(gs[other].names@.len() > 0);
            let n0 = gs[other].names@[0]@;
            assert(in_names(ts, n0));
            let q = choose|q: int| 0 <= q < ts.len() && ts[q]@ == n0;
            if q == 0 {
                assert(gs[other].names@[0]@ != gs[ga].names@[ka]@);
            } else if q == 1 {
                assert(gs[other].names@[0]@ != gs[ga].names@[kb]@);
            } else {
                assert(gs[other].names@[0]@ != gs[gc].names@[kc]@);
            }
        }
    }
    assert(gs[ga].names@.len() == 2) by {
        assert(in_names(gs[ga].names@, ts[1]@));
        let kb2 = choose|k: int| 0 <= k < gs[ga].names@.len() && gs[ga].names@[k]@ == ts[1]@;
        assert(ka != kb2);
        if gs[ga].names@.len() > 2 {
            let kx: int = if ka != 0 && kb2 != 0 {
                0
            } else if ka != 1 && kb2 != 1 {
                1
            } else {
                2
            };
            assert(0 <= kx < gs[ga].names@.len() && kx != ka && kx != kb2);
            let nx = gs[ga].names@[kx]@;
            assert(in_names(ts, nx));
            let q = choose|q: int| 0 <= q < ts.len() && ts[q]@ == nx;
            if q == 0 {
                assert(gs[ga].names@[kx]@ != gs[ga].names@[ka]@);
            } else if q == 1 {
                assert(gs[ga].names@[kx]@ != gs[ga].names@[kb2]@);
            } else {
                assert(gs[ga].names@[kx]@ != gs[gc].names@[kc]@);
            }
        }
    }
    assert(gs[gc].names@.len() == 1 && gs[gc].names@[0]@ == ts[2]@) by {
        if gs[gc].names@.len() > 1 {
            let kx: int = if kc != 0 {
                0
            } else {
                1
            };
            assert(0 <= kx < gs[gc].names@.len() && kx != kc);
            let nx = gs[gc].names@[kx]@;
            assert(in_names(ts, nx));
            let q = choose|q: int| 0 <= q < ts.len() && ts[q]@ == nx;
            if q == 0 {
                assert(gs[gc].names@[kx]@ != gs[ga].names@[ka]@);
                let kb2 = choose|k: int|
                    0 <= k < gs[ga].names@.len() && gs[ga].names@[k]@ == ts[1]@;
                assert(gs[gc].names@[kx]@ != gs[ga].names@[kb2]@);
            } else if q == 1 {
                let kb2 = choose|k: int|
                    0 <= k < gs[ga].names@.len() && gs[ga].names@[k]@ == ts[1]@;
                assert(gs[gc].names@[kx]@ != gs[ga].names@[kb2]@);
                assert(gs[gc].names@[kx]@ != gs[ga].names@[ka]@);
            } else {
                assert(gs[gc].names@[kx]@ != gs[gc].names@[kc]@);
            }
        }
        assert(gs[gc].names@[0]@ == ts[2]@);
    }
    assert(ga < 2 && gc < 2);
    assert({
        &&& 0 <= ga < 2 && 0 <= gc < 2 && ga != gc
        &&& gs[ga].names@.len() == 2
        &&& in_names(gs[ga].names@, ts[0]@)
        &&& in_names(gs[ga].names@, ts[1]@)
        &&& gs[gc].names@.len() == 1
        &&& gs[gc].names@[0]@ == ts[2]@
    });
}

/// Whether the daemon keeps running after a request, and the reply sent
/// back for it.
pub struct DispatchResult {
    pub stop: bool,
    pub reply: Result<String, String>,
}

impl Daemon {
    /// Decode one request into its effect: Kill stops the loop, Query
    /// reports the outputs, Init is a no-op for a running daemon, and
    /// Clear and Img run the pipeline.  The reply is complete before
    /// anything is written back.
    pub fn dispatch(&mut self, request: &crate::cli::Swww, decoded: Option<&RawImg>) -> (r:
        DispatchResult)
        requires
            old(self).wf(),
            request matches crate::cli::Swww::Img(_) ==> decoded matches Some(d) && d.wf(),
        ensures
            final(self).wf(),
            r.stop == (request is Kill),
            request is Kill ==> *final(self) == *old(self) && (r.reply matches Ok(p)
                && p@.len() == 0),
            request is Init ==> *final(self) == *old(self) && (r.reply matches Ok(p)
                && p@.len() == 0),
            request is Query ==> *final(self) == *old(self) && (r.reply matches Ok(p) && p@
                == query_reply_spec(old(self).outputs@)),
            request matches crate::cli::Swww::Clear(c) ==> {
                &&& (r.reply is Ok) == any_target(*old(self), c.outputs@)
                &&& (r.reply is Err ==> *final(self) == *old(self))
                &&& final(self).outputs@.len() == old(self).outputs@.len()
                &&& forall|i: int|
                    0 <= i < old(self).outputs@.len() ==> {
                        let o = old(self).outputs@[i];
                        let f = #[trigger] final(self).outputs@[i];
                        &&& f.name == o.name
                        &&& f.width == o.width
                        &&& f.height == o.height
                        &&& f.pending == o.pending
                        &&& if r.reply is Ok && is_target(*old(self), c.outputs@, o.name@) {
                            f.buffer@ == solid_spec(
                                o.width as int,
                                o.height as int,
                                c.color[0],
                                c.color[1],
                                c.color[2],
                            ) && f.img is None
                        } else {
                            f == o
                        }
                    }
            },
            request matches crate::cli::Swww::Img(img) ==> {
                &&& (decoded matches Some(dec) && {
                    &&& (r.reply is Ok) == (any_target(*old(self), img.outputs@) && (forall|
                        i: int,
                    |
                        0 <= i < old(self).outputs@.len() && is_target(
                            *old(self),
                            img.outputs@,
                            (#[trigger] old(self).outputs@[i]).name@,
                        ) ==> crate::imgproc::resize::strategy_req(
                            img.resize,
                            dec.width as int,
                            dec.height as int,
                            old(self).outputs@[i].width as int,
                            old(self).outputs@[i].height as int,
                        )))
                    &&& (r.reply is Err ==> *final(self) == *old(self))
                    &&& final(self).outputs@.len() == old(self).outputs@.len()
                    &&& forall|i: int|
                        0 <= i < old(self).outputs@.len() ==> {
                            let o = old(self).outputs@[i];
                            let f = #[trigger] final(self).outputs@[i];
                            &&& f.name == o.name
                            &&& f.width == o.width
                            &&& f.height == o.height
                            &&& f.pending == o.pending
                            &&& if r.reply is Ok && is_target(*old(self), img.outputs@, o.name@) {
                                f.buffer@ == op_spec(*img, o.width, o.height).result_spec(*dec)
                                    && (f.img matches Some(nid) && nid.same(req_id(*img)))
                            } else {
                                f == o
                            }
                        }
                })
            },
    {
        match request {
            crate::cli::Swww::Kill => DispatchResult { stop: true, reply: Ok(String::new()) },
            crate::cli::Swww::Init { .. } => DispatchResult {
                stop: false,
                reply: Ok(String::new()),
            },
            crate::cli::Swww::Query => DispatchResult {
                stop: false,
                reply: Ok(self.query_reply()),
            },
            crate::cli::Swww::Clear(c) => DispatchResult {
                stop: false,
                reply: self.handle_clear(c),
            },
            crate::cli::Swww::Img(img) => {
                let dec = match decoded {
                    Some(d) => d,
                    None => unreached(),
                };
                DispatchResult { stop: false, reply: self.handle_img(img, dec) }
            },
        }
    }
}

} // verus!
