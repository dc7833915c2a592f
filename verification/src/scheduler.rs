//! Wallpaper rotation queue.
//!
//! Images are picked in `Sequential` or `Random` order and `prev()` walks
//! back through the history. In random order every image is shown once per
//! cycle before the list is shuffled again.
//!
//! State:
//! - `queue`: images not shown yet in this cycle (the front is "next")
//! - `history`: images shown before (the back is the most recent)
//! - `current`: the image on screen

use std::collections::VecDeque;

use vstd::prelude::*;
use vstd::multiset::Multiset;
use vstd::arithmetic::div_mod::{
    lemma_fundamental_div_mod, lemma_fundamental_div_mod_converse, lemma_mod_pos_bound,
};

use crate::config::Order;
use crate::scanner::{components, comps_view, path_components, same_components};
use crate::shuffle::{fy_draws, fy_shuffle, fy_steps, swap_at};
use crate::text::clone_strings;

verus! {

broadcast use vstd::seq_lib::group_to_multiset_ensures;

/// Maximum number of images that `prev()` can walk back.
pub const HISTORY_LIMIT: usize = 50;

/// Views (character sequences) of a sequence of strings.
pub open spec fn views(s: Seq<String>) -> Seq<Seq<char>> {
    s.map_values(|x: String| x@)
}

/// Some element of `s` names the path `p`: paths are compared as `Path`
/// compares them, by their components (`/a//b.jpg` is `/a/b.jpg`).
pub open spec fn has_path(s: Seq<String>, p: Seq<char>) -> bool {
    exists|i: int| 0 <= i < s.len() && #[trigger] components(s[i]@) == components(p)
}

/// `s` without the elements that name the path `p` (the order of the rest
/// is kept).
pub open spec fn drop_path(s: Seq<String>, p: Seq<char>) -> Seq<String>
    decreases s.len(),
{
    if s.len() == 0 {
        s
    } else {
        let rest = drop_path(s.drop_last(), p);
        if components(s.last()@) == components(p) {
            rest
        } else {
            rest.push(s.last())
        }
    }
}

/// `h` after recording `c` as the most recent image, keeping at most
/// `HISTORY_LIMIT` entries (the oldest one is dropped).
pub open spec fn push_history(h: Seq<String>, c: String) -> Seq<String> {
    if h.len() >= HISTORY_LIMIT {
        h.drop_first().push(c)
    } else {
        h.push(c)
    }
}

/// `q` is a queue that `build_queue(images, order, avoid)` may return:
/// the images in their order (sequential), or (random) the Fisher-Yates
/// shuffle of the images by some draws (see `crate::shuffle`), moved on by
/// one when it would begin with `avoid`; so a permutation of them whose
/// front is not `avoid` unless `avoid` was moved to the back.
pub open spec fn queue_for(images: Seq<String>, order: Order, avoid: Option<String>, q: Seq<String>) -> bool {
    match order {
        Order::Sequential => q == images,
        Order::Random => {
            &&& q.to_multiset() == images.to_multiset()
            &&& (images.len() > 1 && avoid is Some) ==> (components(q[0]@) != components(avoid->0@) || components(
                q.last()@,
            ) == components(avoid->0@))
            &&& exists|d: Seq<int>|
                #![trigger fy_shuffle(images, d)]
                fy_draws(d, images.len() as int) && q == avoid_rotated(fy_shuffle(images, d), avoid)
        },
    }
}

/// `v` moved on by one (its first item to the back) when it has two or
/// more items and begins with the path `avoid`; otherwise `v`.
pub open spec fn avoid_rotated(v: Seq<String>, avoid: Option<String>) -> Seq<String> {
    if v.len() > 1 && avoid is Some && components(v[0]@) == components(avoid->0@) {
        v.drop_first().push(v[0])
    } else {
        v
    }
}

pub struct Scheduler {
    images: Vec<String>,
    order: Order,
    queue: VecDeque<String>,
    history: VecDeque<String>,
    current: Option<String>,
    paused: bool,
}

impl Scheduler {
    pub closed spec fn spec_images(&self) -> Seq<String> {
        self.images@
    }

    pub closed spec fn spec_order(&self) -> Order {
        self.order
    }

    pub closed spec fn spec_queue(&self) -> Seq<String> {
        self.queue@
    }

    pub closed spec fn spec_history(&self) -> Seq<String> {
        self.history@
    }

    pub closed spec fn spec_current(&self) -> Option<String> {
        self.current
    }

    pub closed spec fn spec_paused(&self) -> bool {
        self.paused
    }

    /// Every image in the queue, the history and on screen is one of the
    /// images, and the history holds at most `HISTORY_LIMIT` entries.
    pub closed spec fn wf(&self) -> bool {
        &&& forall|i: int| 0 <= i < self.queue@.len()
            ==> has_path(self.images@, #[trigger] self.queue@[i]@)
        &&& forall|i: int| 0 <= i < self.history@.len()
            ==> has_path(self.images@, #[trigger] self.history@[i]@)
        &&& (self.current matches Some(c) ==> has_path(self.images@, c@))
        &&& self.history@.len() <= HISTORY_LIMIT
    }

    /// `a` and `b` hold the same state.
    pub open spec fn same(a: Scheduler, b: Scheduler) -> bool {
        &&& a.spec_images() == b.spec_images()
        &&& a.spec_order() == b.spec_order()
        &&& a.spec_queue() == b.spec_queue()
        &&& a.spec_history() == b.spec_history()
        &&& a.spec_current() == b.spec_current()
        &&& a.spec_paused() == b.spec_paused()
    }

    /// What `next()` does: with no images nothing changes and `None` comes
    /// back. Otherwise the current image goes to the history, the queue is
    /// rebuilt if it is empty (in random order not starting with the image
    /// that was on screen), and its front becomes the current image and the
    /// result.
    pub open spec fn next_post(pre: Scheduler, post: Scheduler, r: Option<String>) -> bool {
        if pre.spec_images().len() == 0 {
            Self::same(pre, post) && r is None
        } else {
            &&& post.spec_images() == pre.spec_images()
            &&& post.spec_order() == pre.spec_order()
            &&& post.spec_paused() == pre.spec_paused()
            &&& post.spec_history() == (match pre.spec_current() {
                Some(c) => push_history(pre.spec_history(), c),
                None => pre.spec_history(),
            })
            &&& r is Some
            &&& post.spec_current() == r
            &&& if pre.spec_queue().len() > 0 {
                &&& r == Some(pre.spec_queue()[0])
                &&& post.spec_queue() == pre.spec_queue().drop_first()
            } else {
                queue_for(pre.spec_images(), pre.spec_order(), pre.spec_current(), seq![r->0] + post.spec_queue())
            }
        }
    }

    /// What `prev()` does: with an empty history nothing changes and `None`
    /// comes back. Otherwise the most recent history entry becomes the
    /// current image and the result, and the image that was current goes
    /// back to the front of the queue.
    pub open spec fn prev_post(pre: Scheduler, post: Scheduler, r: Option<String>) -> bool {
        if pre.spec_history().len() == 0 {
            Self::same(pre, post) && r is None
        } else {
            &&& post.spec_images() == pre.spec_images()
            &&& post.spec_order() == pre.spec_order()
            &&& post.spec_paused() == pre.spec_paused()
            &&& post.spec_history() == pre.spec_history().drop_last()
            &&& r == Some(pre.spec_history().last())
            &&& post.spec_current() == r
            &&& post.spec_queue() == (match pre.spec_current() {
                Some(c) => seq![c] + pre.spec_queue(),
                None => pre.spec_queue(),
            })
        }
    }

    /// What `remove_image(p)` does: every image whose path is `p` leaves the
    /// list, the queue and the history, and the current image is dropped
    /// when it is `p`.
    pub open spec fn remove_post(pre: Scheduler, post: Scheduler, p: Seq<char>) -> bool {
        &&& post.spec_images() == drop_path(pre.spec_images(), p)
        &&& post.spec_queue() == drop_path(pre.spec_queue(), p)
        &&& post.spec_history() == drop_path(pre.spec_history(), p)
        &&& post.spec_current() == (match pre.spec_current() {
            Some(c) => if components(c@) == components(p) { None } else { Some(c) },
            None => None,
        })
        &&& post.spec_order() == pre.spec_order()
        &&& post.spec_paused() == pre.spec_paused()
    }

    /// A scheduler as `new(images, order)` creates it.
    pub open spec fn fresh(s: Scheduler, images: Seq<String>, order: Order) -> bool {
        &&& s.spec_images() == images
        &&& s.spec_order() == order
        &&& queue_for(images, order, None, s.spec_queue())
        &&& s.spec_history() == Seq::<String>::empty()
        &&& s.spec_current() is None
        &&& !s.spec_paused()
        &&& s.wf()
    }

    /// Creates a scheduler over `images`; in random order the queue is a
    /// Fisher-Yates shuffle of them.
    pub fn new(images: Vec<String>, order: Order) -> (s: Self)
        ensures
            Self::fresh(s, images@, order),
    {
        let queue = Self::build_queue(&images, order, None);
        let s = Scheduler {
            images,
            order,
            queue,
            history: VecDeque::new(),
            current: None,
            paused: false,
        };
        proof {
            Self::lemma_queue_for_in_images(s.images@, order, None, s.queue@);
        }
        s
    }

    /// Selects the next image and returns it (see `next_post`).
    #[verifier::rlimit(40)]
    pub fn next(&mut self) -> (r: Option<String>)
        requires
            old(self).wf(),
        ensures
            final(self).wf(),
            Self::next_post(*old(self), *final(self), r),
    {
        if self.images.len() == 0 {
            return None;
        }
        let ghost pre = *self;
        let cur = self.current.take();
        let avoid = match &cur {
            Some(c) => Some(c.clone()),
            None => None,
        };
        match cur {
            Some(c) => {
                if self.history.len() >= HISTORY_LIMIT {
                    self.history.pop_front();
                }
                self.history.push_back(c);
            },
            None => {},
        }
        assert(forall|i: int| 0 <= i < self.history@.len()
            ==> has_path(self.images@, #[trigger] self.history@[i]@)) by {
            assert forall|i: int| 0 <= i < self.history@.len()
                implies has_path(self.images@, #[trigger] self.history@[i]@) by {
                match pre.current {
                    Some(c) => {
                        if pre.history@.len() >= HISTORY_LIMIT {
                            if i < self.history@.len() - 1 {
                                assert(self.history@[i] == pre.history@[i + 1]);
                            }
                        } else {
                            if i < self.history@.len() - 1 {
                                assert(self.history@[i] == pre.history@[i]);
                            }
                        }
                    },
                    None => {},
                }
            }
        }
        if self.queue.len() == 0 {
            self.refill(avoid.as_ref());
        }
        let ghost q = self.queue@;
        assert(q.len() > 0) by {
            if pre.queue@.len() == 0 {
                if self.order == Order::Random {
                    assert(q.to_multiset().len() == self.images@.len());
                }
            }
        }
        let front = self.queue.pop_front();
        assert(front == Some(q[0]));
        let c = front.unwrap();
        let r = c.clone();
        assert(has_path(self.images@, q[0]@));
        self.current = Some(c);
        assert(forall|i: int| 0 <= i < self.queue@.len()
            ==> has_path(self.images@, #[trigger] self.queue@[i]@)) by {
            assert forall|i: int| 0 <= i < self.queue@.len()
                implies has_path(self.images@, #[trigger] self.queue@[i]@) by {
                assert(self.queue@[i] == q[i + 1]);
            }
        }
        assert(seq![r] + self.queue@ =~= q);
        Some(r)
    }

    /// Goes back to the previous image (see `prev_post`). The image that was
    /// current is put back at the front of the queue, so `next()` returns it
    /// again.
    pub fn prev(&mut self) -> (r: Option<String>)
        requires
            old(self).wf(),
        ensures
            final(self).wf(),
            Self::prev_post(*old(self), *final(self), r),
    {
        let ghost pre = *self;
        let p = match self.history.pop_back() {
            Some(p) => p,
            None => return None,
        };
        assert(p == pre.history@.last());
        assert(has_path(self.images@, pre.history@[pre.history@.len() - 1]@));
        let cur = self.current.take();
        match cur {
            Some(c) => {
                self.queue.push_front(c);
            },
            None => {},
        }
        let r = p.clone();
        self.current = Some(p);
        proof {
            assert forall|i: int| 0 <= i < self.history@.len()
                implies has_path(self.images@, #[trigger] self.history@[i]@) by {
                assert(self.history@[i] == pre.history@[i]);
            }
            assert forall|i: int| 0 <= i < self.queue@.len()
                implies has_path(self.images@, #[trigger] self.queue@[i]@) by {
                match pre.current {
                    Some(c) => {
                        if i > 0 {
                            assert(self.queue@[i] == pre.queue@[i - 1]);
                        }
                    },
                    None => {},
                }
            }
            match pre.current {
                Some(c) => {
                    assert(self.queue@ =~= seq![c] + pre.queue@);
                },
                None => {},
            }
        }
        Some(r)
    }

    /// The image that `next()` will show, without changing anything.
    /// `None` when the queue is empty (it is rebuilt only by `next()`).
    pub fn peek_next(&self) -> (r: Option<&String>)
        ensures
            r == (if self.spec_queue().len() > 0 {
                Some(&self.spec_queue()[0])
            } else {
                None
            }),
    {
        if self.queue.len() > 0 {
            Some(&self.queue[0])
        } else {
            None
        }
    }

    /// The image on screen.
    pub fn current(&self) -> (r: Option<&String>)
        ensures
            r == (match self.spec_current() {
                Some(c) => Some(&c),
                None => None,
            }),
    {
        match &self.current {
            Some(c) => Some(c),
            None => None,
        }
    }

    /// Stops the automatic rotation.
    pub fn pause(&mut self)
        requires
            old(self).wf(),
        ensures
            final(self).wf(),
            final(self).spec_paused(),
            final(self).spec_images() == old(self).spec_images(),
            final(self).spec_order() == old(self).spec_order(),
            final(self).spec_queue() == old(self).spec_queue(),
            final(self).spec_history() == old(self).spec_history(),
            final(self).spec_current() == old(self).spec_current(),
    {
        self.paused = true;
    }

    /// Restarts the automatic rotation.
    pub fn resume(&mut self)
        requires
            old(self).wf(),
        ensures
            final(self).wf(),
            !final(self).spec_paused(),
            final(self).spec_images() == old(self).spec_images(),
            final(self).spec_order() == old(self).spec_order(),
            final(self).spec_queue() == old(self).spec_queue(),
            final(self).spec_history() == old(self).spec_history(),
            final(self).spec_current() == old(self).spec_current(),
    {
        self.paused = false;
    }

    /// The change of the rotation timer: the next image, unless the
    /// rotation is paused (then nothing changes).
    pub fn auto_next(&mut self) -> (r: Option<String>)
        requires
            old(self).wf(),
        ensures
            final(self).wf(),
            old(self).spec_paused() ==> Self::same(*old(self), *final(self)) && r is None,
            !old(self).spec_paused() ==> Self::next_post(*old(self), *final(self), r),
    {
        if self.paused {
            None
        } else {
            self.next()
        }
    }

    /// Makes `path` the image on screen again (after a restart, when
    /// Plasma still shows it), if it is one of the images; `false` and no
    /// change otherwise. Nothing else changes.
    pub fn restore_current(&mut self, path: &String) -> (restored: bool)
        requires
            old(self).wf(),
        ensures
            final(self).wf(),
            restored == has_path(old(self).spec_images(), path@),
            restored ==> (final(self).spec_current() matches Some(c) && c@ == path@),
            !restored ==> final(self).spec_current() == old(self).spec_current(),
            final(self).spec_images() == old(self).spec_images(),
            final(self).spec_order() == old(self).spec_order(),
            final(self).spec_queue() == old(self).spec_queue(),
            final(self).spec_history() == old(self).spec_history(),
            final(self).spec_paused() == old(self).spec_paused(),
    {
        if contains_path(&self.images, path) {
            self.current = Some(path.clone());
            true
        } else {
            false
        }
    }

    pub fn is_paused(&self) -> (b: bool)
        ensures
            b == self.spec_paused(),
    {
        self.paused
    }

    pub fn image_count(&self) -> (n: usize)
        ensures
            n == self.spec_images().len(),
    {
        self.images.len()
    }

    /// Adds an image (used by the directory watcher). An image already in
    /// the list is ignored; a new one is also appended to the queue, so the
    /// running cycle picks it up.
    pub fn add_image(&mut self, path: String)
        requires
            old(self).wf(),
        ensures
            final(self).wf(),
            add_post(*old(self), *final(self), path@),
    {
        if contains_path(&self.images, &path) {
            return;
        }
        let ghost pre = *self;
        let p2 = path.clone();
        self.images.push(path);
        self.queue.push_back(p2);
        proof {
            let n = pre.images@.len();
            assert(self.images@[n as int]@ == p2@);
            assert(self.images@.drop_last() =~= pre.images@);
            assert(self.queue@.drop_last() =~= pre.queue@);
            assert forall|x: Seq<char>| has_path(pre.images@, x) implies has_path(self.images@, x) by {
                let i = choose|i: int| 0 <= i < pre.images@.len() && #[trigger] components(pre.images@[i]@) == components(x);
                assert(self.images@[i] == pre.images@[i]);
            }
            assert forall|i: int| 0 <= i < self.queue@.len()
                implies has_path(self.images@, #[trigger] self.queue@[i]@) by {
                if i < pre.queue@.len() {
                    assert(self.queue@[i] == pre.queue@[i]);
                    assert(has_path(pre.images@, pre.queue@[i]@));
                } else {
                    assert(components(self.images@[n as int]@) == components(self.queue@[i]@));
                }
            }
            assert forall|i: int| 0 <= i < self.history@.len()
                implies has_path(self.images@, #[trigger] self.history@[i]@) by {
                assert(has_path(pre.images@, pre.history@[i]@));
            }
            if let Some(c) = pre.spec_current() {
                assert(has_path(pre.images@, c@));
            }
        }
    }

    /// Removes an image (used by the directory watcher, trash and
    /// blacklist): from the list, the queue and the history; when it is on
    /// screen, there is no current image until the next `next()`.
    pub fn remove_image(&mut self, path: &String)
        requires
            old(self).wf(),
        ensures
            final(self).wf(),
            Self::remove_post(*old(self), *final(self), path@),
    {
        let ghost pre = *self;
        self.images = paths_without(&self.images, path);
        self.queue = deque_paths_without(&self.queue, path);
        let pc = path_components(path.as_str());
        let drop_current = match &self.current {
            Some(c) => same_components(&path_components(c.as_str()), &pc),
            None => false,
        };
        if drop_current {
            self.current = None;
        }
        self.history = deque_paths_without(&self.history, path);
        proof {
            lemma_drop_path_len(pre.history@, path@);
            assert forall|i: int| 0 <= i < self.queue@.len()
                implies has_path(self.images@, #[trigger] self.queue@[i]@) by {
                lemma_drop_path_member(pre.queue@, path@, i);
                let j = choose|j: int| 0 <= j < pre.queue@.len() && pre.queue@[j] == self.queue@[i];
                assert(has_path(pre.images@, pre.queue@[j]@));
                lemma_drop_path_keeps(pre.images@, path@, self.queue@[i]@);
            }
            assert forall|i: int| 0 <= i < self.history@.len()
                implies has_path(self.images@, #[trigger] self.history@[i]@) by {
                lemma_drop_path_member(pre.history@, path@, i);
                let j = choose|j: int| 0 <= j < pre.history@.len() && pre.history@[j] == self.history@[i];
                assert(has_path(pre.images@, pre.history@[j]@));
                lemma_drop_path_keeps(pre.images@, path@, self.history@[i]@);
            }
            if let Some(c) = self.spec_current() {
                assert(has_path(pre.images@, c@));
                lemma_drop_path_keeps(pre.images@, path@, c@);
            }
        }
    }

    /// Rebuilds the queue once it has run out; in random order the image
    /// that was just on screen (`avoid`) does not come first.
    fn refill(&mut self, avoid: Option<&String>)
        requires
            old(self).queue@.len() == 0,
        ensures
            final(self).images == old(self).images,
            final(self).order == old(self).order,
            final(self).history == old(self).history,
            final(self).current == old(self).current,
            final(self).paused == old(self).paused,
            queue_for(final(self).images@, final(self).order, match avoid {
                Some(a) => Some(*a),
                None => None,
            }, final(self).queue@),
            forall|i: int| 0 <= i < final(self).queue@.len()
                ==> has_path(final(self).images@, #[trigger] final(self).queue@[i]@),
    {
        self.queue = Self::build_queue(&self.images, self.order, avoid);
        proof {
            Self::lemma_queue_for_in_images(self.images@, self.order, match avoid {
                Some(a) => Some(*a),
                None => None,
            }, self.queue@);
        }
    }

    /// Builds a queue over `images` (see `queue_for`): the images in order,
    /// or a Fisher-Yates shuffle of them in which an `avoid_first` that
    /// lands in front is moved to the back.
    pub fn build_queue(images: &Vec<String>, order: Order, avoid_first: Option<&String>) -> (q: VecDeque<String>)
        ensures
            queue_for(images@, order, match avoid_first {
                Some(a) => Some(*a),
                None => None,
            }, q@),
    {
        match order {
            Order::Sequential => deque_of(images),
            Order::Random => {
                let (q, draws) = shuffled_queue(images, avoid_first);
                assert(fy_draws(draws@, images@.len() as int) && q@ == avoid_rotated(
                    fy_shuffle(images@, draws@),
                    match avoid_first {
                        Some(a) => Some(*a),
                        None => None,
                    },
                ));
                q
            },
        }
    }

    proof fn lemma_queue_for_in_images(images: Seq<String>, order: Order, avoid: Option<String>, q: Seq<String>)
        requires
            queue_for(images, order, avoid, q),
        ensures
            forall|i: int| 0 <= i < q.len() ==> has_path(images, #[trigger] q[i]@),
            q.len() == images.len(),
    {
        match order {
            Order::Sequential => {
                assert forall|i: int| 0 <= i < q.len() implies has_path(images, #[trigger] q[i]@) by {
                    assert(components(images[i]@) == components(q[i]@));
                }
            },
            Order::Random => {
                assert(q.to_multiset().len() == q.len());
                assert(images.to_multiset().len() == images.len());
                assert forall|i: int| 0 <= i < q.len() implies has_path(images, #[trigger] q[i]@) by {
                    assert(q.to_multiset().contains(q[i]));
                    assert(images.to_multiset().contains(q[i]));
                    assert(images.contains(q[i]));
                    let k = choose|k: int| 0 <= k < images.len() && images[k] == q[i];
                    assert(components(images[k]@) == components(q[i]@));
                }
            },
        }
    }
}

/// A Fisher-Yates shuffle of `images`; when `avoid_first` lands in front
/// of two or more images it is moved to the back. Returns the queue and the
/// draws of the shuffle: the queue is the shuffle of the images by those
/// draws, moved on by one when it begins with `avoid_first`.
fn shuffled_queue(images: &Vec<String>, avoid_first: Option<&String>) -> (out: (VecDeque<String>, Ghost<Seq<int>>))
    ensures
        out.0@.to_multiset() == images@.to_multiset(),
        (images@.len() > 1 && avoid_first is Some) ==> (components(out.0@[0]@) != components(avoid_first->0@)
            || components(out.0@.last()@) == components(avoid_first->0@)),
        fy_draws(out.1@, images@.len() as int),
        out.0@ == avoid_rotated(fy_shuffle(images@, out.1@), match avoid_first {
            Some(a) => Some(*a),
            None => None,
        }),
{
    let mut v = clone_strings(images);
    let draws = fisher_yates(&mut v);
    let ghost shuffled = v@;
    let n = v.len();
    let mut rotated = false;
    if n > 1 {
        match avoid_first {
            Some(a) => {
                if same_components(&path_components(v[0].as_str()), &path_components(a.as_str())) {
                    let first = v.remove(0);
                    v.push(first);
                    rotated = true;
                }
            },
            None => {},
        }
    }
    proof {
        if rotated {
            assert(v@ =~= shuffled.drop_first().push(shuffled[0]));
            assert(shuffled =~= seq![shuffled[0]] + shuffled.drop_first());
            vstd::seq_lib::lemma_multiset_commutative(seq![shuffled[0]], shuffled.drop_first());
            assert(v@ =~= shuffled.drop_first() + seq![shuffled[0]]);
        }
        assert(v@ == avoid_rotated(shuffled, match avoid_first {
            Some(a) => Some(*a),
            None => None,
        }));
    }
    (deque_of(&v), draws)
}

/// `v` has an element that names the path `p`.
fn contains_path(v: &Vec<String>, p: &String) -> (b: bool)
    ensures
        b == has_path(v@, p@),
{
    let pc = path_components(p.as_str());
    let n = v.len();
    for i in 0..n
        invariant
            n == v@.len(),
            comps_view(pc@) == components(p@),
            forall|j: int| 0 <= j < i ==> components((#[trigger] v@[j])@) != components(p@),
    {
        let c = path_components(v[i].as_str());
        if same_components(&c, &pc) {
            assert(components(v@[i as int]@) == components(p@));
            return true;
        }
    }
    false
}

/// A copy of `v` without the elements that name the path `p`.
fn paths_without(v: &Vec<String>, p: &String) -> (r: Vec<String>)
    ensures
        r@ == drop_path(v@, p@),
{
    let pc = path_components(p.as_str());
    let mut r: Vec<String> = Vec::new();
    let n = v.len();
    for i in 0..n
        invariant
            n == v@.len(),
            comps_view(pc@) == components(p@),
            r@ == drop_path(v@.take(i as int), p@),
    {
        assert(v@.take(i + 1).drop_last() =~= v@.take(i as int));
        let c = path_components(v[i].as_str());
        if !same_components(&c, &pc) {
            r.push(v[i].clone());
        }
    }
    assert(v@.take(n as int) =~= v@);
    r
}

/// A copy of `v` without the elements that name the path `p`.
fn deque_paths_without(v: &VecDeque<String>, p: &String) -> (r: VecDeque<String>)
    ensures
        r@ == drop_path(v@, p@),
{
    let pc = path_components(p.as_str());
    let mut r: VecDeque<String> = VecDeque::new();
    let n = v.len();
    for i in 0..n
        invariant
            n == v@.len(),
            comps_view(pc@) == components(p@),
            r@ == drop_path(v@.take(i as int), p@),
    {
        assert(v@.take(i + 1).drop_last() =~= v@.take(i as int));
        let c = path_components(v[i].as_str());
        if !same_components(&c, &pc) {
            r.push_back(v[i].clone());
        }
    }
    assert(v@.take(n as int) =~= v@);
    r
}

/// The elements of `v` in a deque, in order.
fn deque_of(v: &Vec<String>) -> (r: VecDeque<String>)
    ensures
        r@ == v@,
{
    let mut r: VecDeque<String> = VecDeque::new();
    let n = v.len();
    for i in 0..n
        invariant
            n == v@.len(),
            r@ == v@.take(i as int),
    {
        r.push_back(v[i].clone());
        assert(v@.take(i + 1) =~= v@.take(i as int).push(v@[i as int]));
    }
    assert(v@.take(n as int) =~= v@);
    r
}

/// `rand::Rng::random_range` on the thread-local generator `rand::rng()`,
/// over `0..=upper`: a value between 0 and `upper`, chosen at random.
#[verifier::external_body]
fn random_index(upper: usize) -> (j: usize)
    ensures
        j <= upper,
{
    rand::Rng::random_range(&mut rand::rng(), 0..=upper)
}

/// Fisher-Yates shuffle: from the last position down to the second, each
/// position `k` is exchanged with a position drawn at random between the
/// first and `k`. Returns the draws: the result is the shuffle of the input
/// by them (`crate::shuffle::fy_shuffle`), a permutation of the input, and
/// every permutation comes from exactly one sequence of draws
/// (`crate::shuffle::lemma_fy_draws_unique`,
/// `crate::shuffle::lemma_fy_reaches_every_order`).
fn fisher_yates(v: &mut Vec<String>) -> (draws: Ghost<Seq<int>>)
    ensures
        final(v)@.to_multiset() == old(v)@.to_multiset(),
        final(v)@.len() == old(v)@.len(),
        fy_draws(draws@, old(v)@.len() as int),
        final(v)@ == fy_shuffle(old(v)@, draws@),
{
    let ghost s0 = v@;
    let ghost n = v@.len() as int;
    let ghost mut d: Seq<int> = Seq::new(n as nat, |k: int| 0int);
    let mut i = v.len();
    while i > 1
        invariant
            i <= v@.len(),
            i == 0 ==> n == 0,
            v@.len() == n == s0.len(),
            v@.to_multiset() == s0.to_multiset(),
            fy_draws(d, n),
            v@ == fy_steps(s0, d, n, i as int),
        decreases i,
    {
        i = i - 1;
        let j = random_index(i);
        let ghost s_prev = v@;
        let ghost d_prev = d;
        proof {
            d = d.update(i as int, j as int);
        }
        let a = v[i].clone();
        let b = v[j].clone();
        v.set(i, b);
        v.set(j, a);
        proof {
            vstd::seq_lib::to_multiset_update(s_prev, i as int, s_prev[j as int]);
            let s1 = s_prev.update(i as int, s_prev[j as int]);
            vstd::seq_lib::to_multiset_update(s1, j as int, s_prev[i as int]);
            assert(v@ == s1.update(j as int, s_prev[i as int]));
            assert(s_prev.to_multiset().insert(s_prev[j as int]).remove(s_prev[i as int]).insert(s_prev[i as int]).remove(s1[j as int])
                =~= s_prev.to_multiset());
            assert(v@ == swap_at(s_prev, i as int, j as int));
            crate::shuffle::lemma_fy_steps_agree(s0, d, d_prev, n, i + 1);
            assert(fy_steps(s0, d, n, i as int) == swap_at(fy_steps(s0, d, n, i + 1), i as int, d[i as int]));
            assert(fy_draws(d, n)) by {
                if n > 0 {
                    assert(d[0] == d_prev[0]);
                }
                assert forall|k: int| 1 <= k < n implies 0 <= #[trigger] d[k] <= k by {
                    if k != i {
                        assert(d[k] == d_prev[k]);
                    }
                }
            }
        }
    }
    proof {
        if i == 0 {
            assert(fy_steps(s0, d, n, 0) == s0);
            assert(fy_steps(s0, d, n, 1) == s0);
        }
    }
    Ghost(d)
}

proof fn lemma_drop_path_len(s: Seq<String>, p: Seq<char>)
    ensures
        drop_path(s, p).len() <= s.len(),
    decreases s.len(),
{
    if s.len() > 0 {
        lemma_drop_path_len(s.drop_last(), p);
    }
}

/// Every element of `drop_path(s, p)` is an element of `s` that does not
/// name `p`.
proof fn lemma_drop_path_member(s: Seq<String>, p: Seq<char>, i: int)
    requires
        0 <= i < drop_path(s, p).len(),
    ensures
        components(drop_path(s, p)[i]@) != components(p),
        exists|j: int| 0 <= j < s.len() && s[j] == drop_path(s, p)[i],
    decreases s.len(),
{
    let rest = drop_path(s.drop_last(), p);
    if components(s.last()@) == components(p) {
        lemma_drop_path_member(s.drop_last(), p, i);
        let j = choose|j: int| 0 <= j < s.drop_last().len() && s.drop_last()[j] == rest[i];
        assert(s[j] == s.drop_last()[j]);
    } else {
        if i < rest.len() {
            lemma_drop_path_member(s.drop_last(), p, i);
            let j = choose|j: int| 0 <= j < s.drop_last().len() && s.drop_last()[j] == rest[i];
            assert(s[j] == s.drop_last()[j]);
        } else {
            assert(s[s.len() - 1] == drop_path(s, p)[i]);
        }
    }
}

/// A path other than `p` that `s` names is still named by `drop_path(s, p)`.
proof fn lemma_drop_path_keeps(s: Seq<String>, p: Seq<char>, x: Seq<char>)
    requires
        has_path(s, x),
        components(x) != components(p),
    ensures
        has_path(drop_path(s, p), x),
    decreases s.len(),
{
    let rest = drop_path(s.drop_last(), p);
    let i = choose|i: int| 0 <= i < s.len() && #[trigger] components(s[i]@) == components(x);
    if i < s.len() - 1 {
        assert(s.drop_last()[i] == s[i]);
        lemma_drop_path_keeps(s.drop_last(), p, x);
        let k = choose|k: int| 0 <= k < rest.len() && #[trigger] components(rest[k]@) == components(x);
        if components(s.last()@) != components(p) {
            assert(drop_path(s, p)[k] == rest[k]);
        }
    } else {
        assert(drop_path(s, p) == rest.push(s.last()));
        assert(components(drop_path(s, p)[rest.len() as int]@) == components(x));
    }
}


/// What `add_image(p)` does: a path already in the list changes nothing;
/// a new one joins the list and the back of the queue.
pub open spec fn add_post(pre: Scheduler, post: Scheduler, p: Seq<char>) -> bool {
    &&& post.spec_order() == pre.spec_order()
    &&& post.spec_history() == pre.spec_history()
    &&& post.spec_current() == pre.spec_current()
    &&& post.spec_paused() == pre.spec_paused()
    &&& if has_path(pre.spec_images(), p) {
        &&& post.spec_images() == pre.spec_images()
        &&& post.spec_queue() == pre.spec_queue()
    } else {
        &&& post.spec_images().len() == pre.spec_images().len() + 1
        &&& post.spec_images().drop_last() == pre.spec_images()
        &&& post.spec_images().last()@ == p
        &&& post.spec_queue().len() == pre.spec_queue().len() + 1
        &&& post.spec_queue().drop_last() == pre.spec_queue()
        &&& post.spec_queue().last()@ == p
    }
}

/// `runs[0], runs[1], ...` are the states that successive `next()` calls go
/// through, `results[k]` being what the call from `runs[k]` returned.
pub open spec fn next_run(runs: Seq<Scheduler>, results: Seq<Option<String>>) -> bool {
    &&& runs.len() == results.len() + 1
    &&& forall|k: int|
        #![trigger results[k]]
        0 <= k < results.len() ==> Scheduler::next_post(runs[k], runs[k + 1], results[k])
}

/// The images that the calls `a..b` of a run returned.
pub open spec fn shown(results: Seq<Option<String>>, a: int, b: int) -> Seq<String> {
    results.subrange(a, b).map_values(|o: Option<String>| o->0)
}

/// The images that the `n` calls from call `a` on returned.
pub open spec fn cycle(results: Seq<Option<String>>, a: int, n: int) -> Seq<String> {
    shown(results, a, a + n)
}

proof fn lemma_mod_step(k: int, n: int)
    requires
        0 <= k,
        0 < n,
    ensures
        0 <= k % n < n,
        k % n + 1 < n ==> (k + 1) % n == k % n + 1,
        k % n + 1 == n ==> (k + 1) % n == 0,
        (k - k % n) % n == 0,
        k - k % n >= 0,
{
    lemma_mod_pos_bound(k, n);
    lemma_fundamental_div_mod(k, n);
    let q = k / n;
    assert(n * q == q * n) by (nonlinear_arith);
    assert(q >= 0) by (nonlinear_arith)
        requires
            k == n * q + k % n,
            0 <= k % n < n,
            0 <= k,
            0 < n,
    ;
    lemma_fundamental_div_mod_converse(k - k % n, n, q, 0);
    if k % n + 1 < n {
        lemma_fundamental_div_mod_converse(k + 1, n, q, k % n + 1);
    } else if k % n + 1 == n {
        assert((q + 1) * n == q * n + n) by (nonlinear_arith);
        lemma_fundamental_div_mod_converse(k + 1, n, q + 1, 0);
    }
}

/// Two distinct multiples of `n` are at least `n` apart.
proof fn lemma_multiples_apart(a: int, b: int, n: int)
    requires
        n > 0,
        a % n == 0,
        b % n == 0,
    ensures
        a <= b - n || a >= b,
{
    lemma_fundamental_div_mod(a, n);
    lemma_fundamental_div_mod(b, n);
    let qa = a / n;
    let qb = b / n;
    assert(a <= b - n || a >= b) by (nonlinear_arith)
        requires
            a == n * qa,
            b == n * qb,
            n > 0,
    ;
}

spec fn sequential_inv(s: Scheduler, images: Seq<String>, k: int) -> bool {
    let n = images.len() as int;
    &&& s.spec_images() == images
    &&& s.spec_order() == Order::Sequential
    &&& (s.spec_queue() == images.skip(k % n) || (k % n == 0 && s.spec_queue().len() == 0))
}

proof fn lemma_sequential_prefix(runs: Seq<Scheduler>, results: Seq<Option<String>>, images: Seq<String>, k: int)
    requires
        next_run(runs, results),
        Scheduler::fresh(runs[0], images, Order::Sequential),
        images.len() > 0,
        0 <= k <= results.len(),
    ensures
        sequential_inv(runs[k], images, k),
        forall|j: int| 0 <= j < k ==> #[trigger] results[j] == Some(images[j % (images.len() as int)]),
    decreases k,
{
    let n = images.len() as int;
    if k == 0 {
        assert(images.skip(0) =~= images);
        lemma_mod_step(0, n);
    } else {
        let j = k - 1;
        lemma_sequential_prefix(runs, results, images, j);
        lemma_mod_step(j, n);
        let pre = runs[j];
        let post = runs[k];
        let r = results[j];
        assert(Scheduler::next_post(pre, post, r));
        let m = j % n;
        if pre.spec_queue().len() > 0 {
            assert(pre.spec_queue() == images.skip(m));
            assert(r == Some(images[m]));
            assert(post.spec_queue() =~= images.skip(m + 1));
        } else {
            assert(images.skip(m).len() > 0);
            assert(m == 0);
            assert(seq![r->0] + post.spec_queue() == images);
            assert(images[0] == (seq![r->0] + post.spec_queue())[0]);
            assert(post.spec_queue() =~= images.skip(1));
        }
    }
}

/// In sequential order a new scheduler shows the images in their order and
/// starts over after the last one: call `k` of `next()` returns image `k`
/// modulo the number of images.
pub proof fn lemma_sequential_wraps(runs: Seq<Scheduler>, results: Seq<Option<String>>, images: Seq<String>)
    requires
        next_run(runs, results),
        Scheduler::fresh(runs[0], images, Order::Sequential),
        images.len() > 0,
    ensures
        forall|k: int|
            0 <= k < results.len() ==> #[trigger] results[k] == Some(images[k % (images.len() as int)]),
{
    lemma_sequential_prefix(runs, results, images, results.len() as int);
}

spec fn random_inv(s: Scheduler, images: Seq<String>, results: Seq<Option<String>>, k: int) -> bool {
    let n = images.len() as int;
    let m = k % n;
    &&& s.spec_images() == images
    &&& s.spec_order() == Order::Random
    &&& forall|j: int| 0 <= j < k ==> (#[trigger] results[j]) is Some
    &&& ((m == 0 && s.spec_queue().len() == 0) || (s.spec_queue().len() == n - m
        && s.spec_queue().to_multiset().add(shown(results, k - m, k).to_multiset())
        == images.to_multiset()))
    &&& forall|a: int|
        0 <= a && a % n == 0 && a + n <= k ==> #[trigger] cycle(results, a, n).to_multiset()
            == images.to_multiset()
}

proof fn lemma_random_prefix(runs: Seq<Scheduler>, results: Seq<Option<String>>, images: Seq<String>, k: int)
    requires
        next_run(runs, results),
        Scheduler::fresh(runs[0], images, Order::Random),
        images.len() > 0,
        0 <= k <= results.len(),
    ensures
        random_inv(runs[k], images, results, k),
    decreases k,
{
    broadcast use vstd::multiset::group_multiset_axioms;
    broadcast use vstd::seq_lib::to_multiset_len;
    let n = images.len() as int;
    if k == 0 {
        lemma_mod_step(0, n);
        assert(shown(results, 0, 0).to_multiset() =~= Multiset::empty());
        assert(runs[0].spec_queue().to_multiset().len() == images.to_multiset().len());
        assert(runs[0].spec_queue().to_multiset().add(Multiset::empty()) =~= runs[0].spec_queue().to_multiset());
    } else {
        let j = k - 1;
        lemma_random_prefix(runs, results, images, j);
        lemma_mod_step(j, n);
        let pre = runs[j];
        let post = runs[k];
        let r = results[j];
        assert(Scheduler::next_post(pre, post, r));
        let m = j % n;
        let base = j - m;
        if pre.spec_queue().len() > 0 {
            let q = pre.spec_queue();
            assert(q.len() == n - m);
            assert(r == Some(q[0]));
            assert(shown(results, base, k) =~= shown(results, base, j).push(q[0]));
            vstd::seq_lib::to_multiset_remove(q, 0);
            assert(q.remove(0) =~= q.drop_first());
            assert(post.spec_queue().to_multiset() == q.to_multiset().remove(q[0]));
            assert(q.to_multiset().count(q[0]) > 0) by {
                vstd::seq_lib::to_multiset_contains(q, q[0]);
                assert(q.contains(q[0]));
            }
            assert(post.spec_queue().to_multiset().add(shown(results, base, k).to_multiset())
                =~= q.to_multiset().add(shown(results, base, j).to_multiset()));
            if m + 1 == n {
                assert(post.spec_queue().to_multiset() =~= Multiset::empty());
                assert forall|a: int|
                    0 <= a && a % n == 0 && a + n <= k implies #[trigger] cycle(results, a, n).to_multiset()
                        == images.to_multiset() by {
                    if a + n > j {
                        assert(a == base) by {
                            assert(a + n == k);
                        }
                        assert(cycle(results, a, n) =~= shown(results, base, k));
                    } else {
                        assert(cycle(results, a, n).to_multiset() == images.to_multiset());
                    }
                }
            } else {
                assert(k - (m + 1) == base);
                assert forall|a: int|
                    0 <= a && a % n == 0 && a + n <= k implies #[trigger] cycle(results, a, n).to_multiset()
                        == images.to_multiset() by {
                    if a + n == k {
                        lemma_multiples_apart(a, base, n);
                    }
                }
            }
        } else {
            assert(m == 0);
            let rr = r->0;
            assert(queue_for(images, Order::Random, pre.spec_current(), seq![rr] + post.spec_queue()));
            vstd::seq_lib::lemma_multiset_commutative(seq![rr], post.spec_queue());
            assert((seq![rr] + post.spec_queue()).to_multiset().len() == images.to_multiset().len());
            assert((seq![rr] + post.spec_queue()).len() == n);
            assert(shown(results, j, k) =~= seq![rr]);
            assert(post.spec_queue().to_multiset().add(shown(results, j, k).to_multiset())
                =~= (seq![rr] + post.spec_queue()).to_multiset());
            if n == 1 {
                assert(post.spec_queue().len() == 0);
                assert forall|a: int|
                    0 <= a && a % n == 0 && a + n <= k implies #[trigger] cycle(results, a, n).to_multiset()
                        == images.to_multiset() by {
                    if a + n > j {
                        assert(cycle(results, a, n) =~= shown(results, j, k));
                        assert(post.spec_queue().to_multiset() =~= Multiset::empty());
                    }
                }
            } else {
                assert forall|a: int|
                    0 <= a && a % n == 0 && a + n <= k implies #[trigger] cycle(results, a, n).to_multiset()
                        == images.to_multiset() by {
                    if a + n == k {
                        lemma_multiples_apart(a, j, n);
                    }
                }
            }
        }
    }
}

/// In random order every image is shown once per cycle: on a new
/// scheduler each run of `images.len()` calls of `next()` that starts at a
/// multiple of that number returns a permutation of the images.
pub proof fn lemma_random_cycles(runs: Seq<Scheduler>, results: Seq<Option<String>>, images: Seq<String>)
    requires
        next_run(runs, results),
        Scheduler::fresh(runs[0], images, Order::Random),
        images.len() > 0,
    ensures
        forall|j: int| 0 <= j < results.len() ==> (#[trigger] results[j]) is Some,
        forall|a: int|
            0 <= a && a % (images.len() as int) == 0 && a + images.len() <= results.len()
                ==> #[trigger] cycle(results, a, images.len() as int).to_multiset() == images.to_multiset(),
{
    lemma_random_prefix(runs, results, images, results.len() as int);
}

/// `next()` undoes `prev()`: after going back from image `c`, `next()`
/// shows `c` again and the scheduler is as it was.
pub proof fn lemma_next_undoes_prev(
    s0: Scheduler,
    s1: Scheduler,
    s2: Scheduler,
    r1: Option<String>,
    r2: Option<String>,
)
    requires
        s0.wf(),
        s0.spec_history().len() > 0,
        s0.spec_current() is Some,
        Scheduler::prev_post(s0, s1, r1),
        Scheduler::next_post(s1, s2, r2),
    ensures
        r2 == s0.spec_current(),
        Scheduler::same(s0, s2),
{
    let h = s0.spec_history();
    assert(h.drop_last().push(h.last()) =~= h);
    assert((seq![s0.spec_current()->0] + s0.spec_queue()).drop_first() =~= s0.spec_queue());
}

/// `prev()` undoes `next()` while the history is below its limit: going
/// back right after `next()` returns the image shown before it and leaves
/// the scheduler as it was.
pub proof fn lemma_prev_undoes_next(
    s0: Scheduler,
    s1: Scheduler,
    s2: Scheduler,
    r1: Option<String>,
    r2: Option<String>,
)
    requires
        s0.wf(),
        s0.spec_current() is Some,
        s0.spec_queue().len() > 0,
        s0.spec_history().len() < HISTORY_LIMIT,
        Scheduler::next_post(s0, s1, r1),
        Scheduler::prev_post(s1, s2, r2),
    ensures
        r2 == s0.spec_current(),
        Scheduler::same(s0, s2),
{
    let q = s0.spec_queue();
    assert(s0.spec_history().push(s0.spec_current()->0).drop_last() =~= s0.spec_history());
    assert(seq![q[0]] + q.drop_first() =~= q);
}

/// `peek_next()`, when it names an image, names the one that `next()`
/// shows.
pub proof fn lemma_peek_is_next(s0: Scheduler, s1: Scheduler, r: Option<String>)
    requires
        s0.wf(),
        s0.spec_queue().len() > 0,
        Scheduler::next_post(s0, s1, r),
    ensures
        r == Some(s0.spec_queue()[0]),
{
    assert(has_path(s0.spec_images(), s0.spec_queue()[0]@));
}

/// There is no image before the first one: `prev()` gives `None` on a new
/// scheduler and right after its first `next()`.
pub proof fn lemma_no_previous_at_start(
    s0: Scheduler,
    s1: Scheduler,
    s2: Scheduler,
    s3: Scheduler,
    r1: Option<String>,
    r2: Option<String>,
    r3: Option<String>,
    images: Seq<String>,
    order: Order,
)
    requires
        Scheduler::fresh(s0, images, order),
        Scheduler::prev_post(s0, s1, r1),
        Scheduler::next_post(s0, s2, r2),
        Scheduler::prev_post(s2, s3, r3),
    ensures
        r1 is None,
        r3 is None,
{
}

/// A removed image is not shown by the following `next()`.
pub proof fn lemma_removed_not_next(s0: Scheduler, s1: Scheduler, s2: Scheduler, p: Seq<char>, r: Option<String>)
    requires
        Scheduler::remove_post(s0, s1, p),
        Scheduler::next_post(s1, s2, r),
        r is Some,
    ensures
        components(r->0@) != components(p),
{
    if s1.spec_queue().len() > 0 {
        lemma_drop_path_member(s0.spec_queue(), p, 0);
    } else {
        let q = seq![r->0] + s2.spec_queue();
        Scheduler::lemma_queue_for_in_images(s1.spec_images(), s1.spec_order(), s1.spec_current(), q);
        assert(q[0] == r->0);
        assert(has_path(s1.spec_images(), q[0]@));
        let i = choose|i: int| 0 <= i < s1.spec_images().len() && #[trigger] components(s1.spec_images()[i]@) == components(q[0]@);
        lemma_drop_path_member(s0.spec_images(), p, i);
    }
}


// ---- Fair shuffles -----------------------------------------------------------

/// A random queue can come out in every order of the images that does not
/// begin with the image to avoid, whether an image to avoid is given or
/// not: some draws of the shuffle give that order, and it is a queue that
/// `build_queue` and the reshuffle after each cycle may return. Together
/// with `crate::shuffle::lemma_fy_draws_unique`, each such order comes from
/// its own draws, so a reshuffle is a fresh shuffle, never a fixed order.
pub proof fn lemma_random_queue_any_order(images: Seq<String>, avoid: Option<String>, t: Seq<String>) -> (d: Seq<int>)
    requires
        t.to_multiset() == images.to_multiset(),
        (t.len() > 1 && avoid is Some) ==> components(t[0]@) != components(avoid->0@),
    ensures
        fy_draws(d, images.len() as int),
        avoid_rotated(fy_shuffle(images, d), avoid) == t,
        queue_for(images, Order::Random, avoid, t),
{
    let d = crate::shuffle::lemma_fy_reaches_every_order(images, t);
    assert(t.len() == images.len()) by {
        t.to_multiset_ensures();
        images.to_multiset_ensures();
    }
    assert(avoid_rotated(t, avoid) == t);
    d
}

/// Every random queue that `build_queue` may return, with or without an
/// image to avoid, is a Fisher-Yates shuffle of the images (moved on by
/// one when it begins with the image to avoid): it holds each image as
/// often as the list does, and the draws that give it are the only ones
/// when the images are named once each.
pub proof fn lemma_random_queue_is_a_shuffle(images: Seq<String>, avoid: Option<String>, q: Seq<String>)
    requires
        queue_for(images, Order::Random, avoid, q),
    ensures
        q.to_multiset() == images.to_multiset(),
        exists|d: Seq<int>|
            #![trigger fy_shuffle(images, d)]
            fy_draws(d, images.len() as int) && q == avoid_rotated(fy_shuffle(images, d), avoid) && (
            images.no_duplicates() ==> forall|e: Seq<int>|
                fy_draws(e, images.len() as int) && #[trigger] fy_shuffle(images, e) == fy_shuffle(images, d)
                    ==> e == d),
{
    let d = choose|d: Seq<int>|
        #![trigger fy_shuffle(images, d)]
        fy_draws(d, images.len() as int) && q == avoid_rotated(fy_shuffle(images, d), avoid);
    assert forall|e: Seq<int>|
        images.no_duplicates() && fy_draws(e, images.len() as int) && #[trigger] fy_shuffle(images, e)
            == fy_shuffle(images, d) implies e == d by {
        crate::shuffle::lemma_fy_draws_unique(images, e, d);
    }
}

// ---- No image twice in a row ------------------------------------------------

/// No two entries of `s` name the same path.
pub open spec fn distinct_paths(s: Seq<String>) -> bool {
    forall|i: int, j: int| 0 <= i < j < s.len() ==> components(s[i]@) != components(s[j]@)
}

/// The images name no path twice, neither does the queue, and the image
/// on screen is not waiting in the queue.
pub open spec fn rotation_distinct(s: Scheduler) -> bool {
    &&& distinct_paths(s.spec_images())
    &&& distinct_paths(s.spec_queue())
    &&& (s.spec_current() matches Some(c) ==> !has_path(s.spec_queue(), c@))
}

/// A permutation of a sequence that names no path twice names no path
/// twice.
proof fn lemma_permutation_distinct(a: Seq<String>, b: Seq<String>)
    requires
        distinct_paths(a),
        a.to_multiset() == b.to_multiset(),
    ensures
        distinct_paths(b),
{
    assert forall|i: int, j: int| 0 <= i < a.len() && 0 <= j < a.len() && i != j implies a[i] != a[j] by {
        if i < j {
            assert(components(a[i]@) != components(a[j]@));
        } else {
            assert(components(a[j]@) != components(a[i]@));
        }
    }
    assert(a.no_duplicates());
    a.lemma_multiset_has_no_duplicates();
    b.lemma_multiset_has_no_duplicates_conv();
    assert forall|i: int, j: int| 0 <= i < j < b.len() implies components(b[i]@) != components(b[j]@) by {
        if components(b[i]@) == components(b[j]@) {
            assert(b[i] != b[j]);
            assert(b.contains(b[i]));
            assert(b.contains(b[j]));
            assert(b.to_multiset().count(b[i]) > 0);
            assert(b.to_multiset().count(b[j]) > 0);
            assert(a.to_multiset().count(b[i]) > 0);
            assert(a.to_multiset().count(b[j]) > 0);
            assert(a.contains(b[i]));
            assert(a.contains(b[j]));
            let x = choose|x: int| 0 <= x < a.len() && a[x] == b[i];
            let y = choose|y: int| 0 <= y < a.len() && a[y] == b[j];
            if x < y {
                assert(components(a[x]@) != components(a[y]@));
            } else {
                assert(components(a[y]@) != components(a[x]@));
            }
        }
    }
}

/// A new scheduler over images that name no path twice starts with no
/// path twice in its queue and nothing on screen.
pub proof fn lemma_fresh_rotation_distinct(s: Scheduler, images: Seq<String>, order: Order)
    requires
        Scheduler::fresh(s, images, order),
        distinct_paths(images),
    ensures
        rotation_distinct(s),
{
    match order {
        Order::Sequential => {},
        Order::Random => {
            lemma_permutation_distinct(images, s.spec_queue());
        },
    }
}

/// In random order, over two or more images that name no path twice,
/// `next()` never shows the image that is on screen again, also when the
/// queue is reshuffled at the end of a cycle, and the property carries
/// over to the next call.
pub proof fn lemma_no_consecutive_repeat(pre: Scheduler, post: Scheduler, r: Option<String>)
    requires
        pre.spec_order() == Order::Random,
        pre.spec_images().len() >= 2,
        rotation_distinct(pre),
        Scheduler::next_post(pre, post, r),
    ensures
        rotation_distinct(post),
        r is Some,
        pre.spec_current() matches Some(c) ==> components(r->0@) != components(c@),
{
    let q = pre.spec_queue();
    let nq = if q.len() > 0 {
        q
    } else {
        seq![r->0] + post.spec_queue()
    };
    if q.len() == 0 {
        lemma_permutation_distinct(pre.spec_images(), nq);
        assert(nq.to_multiset().len() == pre.spec_images().to_multiset().len());
        assert(nq.len() >= 2);
        if let Some(c) = pre.spec_current() {
            if components(nq[0]@) == components(c@) {
                assert(components(nq.last()@) == components(c@));
                assert(components(nq[0]@) != components(nq[nq.len() - 1]@));
            }
        }
    } else {
        if let Some(c) = pre.spec_current() {
            if components(q[0]@) == components(c@) {
                assert(has_path(q, c@));
            }
        }
    }
    assert(post.spec_queue() =~= nq.drop_first());
    assert(r == Some(nq[0]));
    assert forall|i: int, j: int| 0 <= i < j < post.spec_queue().len() implies components(post.spec_queue()[i]@)
        != components(post.spec_queue()[j]@) by {
        assert(post.spec_queue()[i] == nq[i + 1]);
        assert(post.spec_queue()[j] == nq[j + 1]);
    }
    if has_path(post.spec_queue(), nq[0]@) {
        let k = choose|k: int| 0 <= k < post.spec_queue().len() && #[trigger] components(post.spec_queue()[k]@) == components(nq[0]@);
        assert(post.spec_queue()[k] == nq[k + 1]);
    }
}

/// In random order, over two or more images that name no path twice, a
/// new scheduler never shows the same image twice in a row: every call of
/// `next()` returns an image other than the one before it, across cycles.
pub proof fn lemma_random_never_repeats(runs: Seq<Scheduler>, results: Seq<Option<String>>, images: Seq<String>)
    requires
        next_run(runs, results),
        Scheduler::fresh(runs[0], images, Order::Random),
        distinct_paths(images),
        images.len() >= 2,
    ensures
        forall|k: int| 0 <= k < results.len() ==> (#[trigger] results[k]) is Some,
        forall|k: int| 1 <= k < results.len() ==> components((#[trigger] results[k])->0@) != components(results[k - 1]->0@),
{
    lemma_fresh_rotation_distinct(runs[0], images, Order::Random);
    lemma_never_repeats_prefix(runs, results, images, results.len() as int);
}

proof fn lemma_never_repeats_prefix(runs: Seq<Scheduler>, results: Seq<Option<String>>, images: Seq<String>, k: int)
    requires
        next_run(runs, results),
        runs[0].spec_images() == images,
        runs[0].spec_order() == Order::Random,
        rotation_distinct(runs[0]),
        images.len() >= 2,
        0 <= k <= results.len(),
    ensures
        runs[k].spec_images() == images,
        runs[k].spec_order() == Order::Random,
        rotation_distinct(runs[k]),
        k >= 1 ==> runs[k].spec_current() == results[k - 1],
        forall|j: int| 0 <= j < k ==> (#[trigger] results[j]) is Some,
        forall|j: int| 1 <= j < k ==> components((#[trigger] results[j])->0@) != components(results[j - 1]->0@),
    decreases k,
{
    if k > 0 {
        lemma_never_repeats_prefix(runs, results, images, k - 1);
        assert(Scheduler::next_post(runs[k - 1], runs[k], results[k - 1]));
        lemma_no_consecutive_repeat(runs[k - 1], runs[k], results[k - 1]);
    }
}

// ---- History over many calls ------------------------------------------------

/// After `k >= 1` calls of `next()` on a new scheduler with images, the
/// last image shown is on screen and the history holds the ones shown
/// before it, oldest first, but only the `HISTORY_LIMIT` most recent.
pub proof fn lemma_history_keeps_recent(
    runs: Seq<Scheduler>,
    results: Seq<Option<String>>,
    images: Seq<String>,
    order: Order,
    k: int,
)
    requires
        next_run(runs, results),
        Scheduler::fresh(runs[0], images, order),
        images.len() > 0,
        1 <= k <= results.len(),
    ensures
        runs[k].spec_current() == results[k - 1],
        results[k - 1] is Some,
        runs[k].spec_history() == shown(
            results,
            if k - 1 > HISTORY_LIMIT {
                k - 1 - HISTORY_LIMIT
            } else {
                0
            },
            k - 1,
        ),
    decreases k,
{
    assert(Scheduler::next_post(runs[k - 1], runs[k], results[k - 1]));
    if k == 1 {
        assert(shown(results, 0, 0) =~= Seq::<String>::empty());
    } else {
        lemma_history_keeps_recent(runs, results, images, order, k - 1);
        lemma_images_kept(runs, results, k - 1);
        let a = if k - 2 > HISTORY_LIMIT {
            k - 2 - HISTORY_LIMIT
        } else {
            0
        };
        let h = shown(results, a, k - 2);
        let c = results[k - 2]->0;
        if h.len() >= HISTORY_LIMIT {
            assert(h.drop_first().push(c) =~= shown(results, a + 1, k - 1));
        } else {
            assert(h.push(c) =~= shown(results, a, k - 1));
        }
    }
}

/// Successive `next()` calls keep the images.
proof fn lemma_images_kept(runs: Seq<Scheduler>, results: Seq<Option<String>>, k: int)
    requires
        next_run(runs, results),
        0 <= k <= results.len(),
    ensures
        runs[k].spec_images() == runs[0].spec_images(),
        runs[k].spec_order() == runs[0].spec_order(),
    decreases k,
{
    if k > 0 {
        lemma_images_kept(runs, results, k - 1);
        assert(Scheduler::next_post(runs[k - 1], runs[k], results[k - 1]));
    }
}

/// `runs[0], runs[1], ...` are the states that successive `prev()` calls
/// go through, `results[k]` being what the call from `runs[k]` returned.
pub open spec fn prev_run(runs: Seq<Scheduler>, results: Seq<Option<String>>) -> bool {
    &&& runs.len() == results.len() + 1
    &&& forall|k: int|
        #![trigger results[k]]
        0 <= k < results.len() ==> Scheduler::prev_post(runs[k], runs[k + 1], results[k])
}

/// Successive `prev()` calls walk the history back: they return its
/// entries from the most recent on, and `None` once it is used up.
pub proof fn lemma_prev_walks_history(runs: Seq<Scheduler>, results: Seq<Option<String>>)
    requires
        prev_run(runs, results),
    ensures
        forall|i: int|
            0 <= i < results.len() ==> #[trigger] results[i] == (if i < runs[0].spec_history().len() {
                Some(runs[0].spec_history()[runs[0].spec_history().len() - 1 - i])
            } else {
                None
            }),
{
    lemma_prev_prefix(runs, results, results.len() as int);
}

proof fn lemma_prev_prefix(runs: Seq<Scheduler>, results: Seq<Option<String>>, k: int)
    requires
        prev_run(runs, results),
        0 <= k <= results.len(),
    ensures
        ({
            let h = runs[0].spec_history();
            &&& runs[k].spec_history() == (if k <= h.len() {
                h.take(h.len() - k)
            } else {
                Seq::<String>::empty()
            })
            &&& forall|i: int|
                0 <= i < k ==> #[trigger] results[i] == (if i < h.len() {
                    Some(h[h.len() - 1 - i])
                } else {
                    None
                })
        }),
    decreases k,
{
    let h = runs[0].spec_history();
    if k == 0 {
        assert(h.take(h.len() as int) =~= h);
    } else {
        lemma_prev_prefix(runs, results, k - 1);
        assert(Scheduler::prev_post(runs[k - 1], runs[k], results[k - 1]));
        if k <= h.len() {
            let t = h.take(h.len() - (k - 1));
            assert(t.last() == h[h.len() - k]);
            assert(t.drop_last() =~= h.take(h.len() - k));
        }
    }
}

/// The history reaches back `HISTORY_LIMIT` images: after `k` calls of
/// `next()` on a new scheduler with images, following `prev()` calls
/// return the images shown before the last one, the most recent first, as
/// far back as `HISTORY_LIMIT` of them, then `None`.
pub proof fn lemma_back_as_far_as_the_limit(
    runs: Seq<Scheduler>,
    results: Seq<Option<String>>,
    images: Seq<String>,
    order: Order,
    back: Seq<Scheduler>,
    back_results: Seq<Option<String>>,
)
    requires
        next_run(runs, results),
        Scheduler::fresh(runs[0], images, order),
        images.len() > 0,
        results.len() >= 1,
        prev_run(back, back_results),
        back[0] == runs[results.len() as int],
    ensures
        forall|i: int|
            0 <= i < back_results.len() ==> #[trigger] back_results[i] == (if i < HISTORY_LIMIT && i
                < results.len() - 1 {
                results[results.len() - 2 - i]
            } else {
                None
            }),
{
    let k = results.len() as int;
    lemma_history_keeps_recent(runs, results, images, order, k);
    lemma_prev_walks_history(back, back_results);
    let a = if k - 1 > HISTORY_LIMIT {
        k - 1 - HISTORY_LIMIT
    } else {
        0
    };
    let h = back[0].spec_history();
    assert(h == shown(results, a, k - 1));
    assert forall|i: int| 0 <= i < back_results.len() implies #[trigger] back_results[i] == (if i
        < HISTORY_LIMIT && i < results.len() - 1 {
        results[results.len() - 2 - i]
    } else {
        None
    }) by {
        if i < h.len() {
            assert(h[h.len() - 1 - i] == results[k - 2 - i]->0);
            lemma_run_results_some(runs, results, images, k - 2 - i);
        }
    }
}

/// Every call of `next()` on a scheduler with images returns one.
proof fn lemma_run_results_some(runs: Seq<Scheduler>, results: Seq<Option<String>>, images: Seq<String>, j: int)
    requires
        next_run(runs, results),
        runs[0].spec_images() == images,
        images.len() > 0,
        0 <= j < results.len(),
    ensures
        results[j] is Some,
{
    lemma_images_kept(runs, results, j);
    assert(Scheduler::next_post(runs[j], runs[j + 1], results[j]));
}

// ---- Added and removed images -----------------------------------------------

/// Calls of `next()` return the queue that is waiting, in its order,
/// before anything is reshuffled.
pub proof fn lemma_queue_comes_out(runs: Seq<Scheduler>, results: Seq<Option<String>>, k: int)
    requires
        next_run(runs, results),
        runs[0].spec_images().len() > 0,
        0 <= k <= runs[0].spec_queue().len(),
        k <= results.len(),
    ensures
        runs[k].spec_queue() == runs[0].spec_queue().skip(k),
        forall|i: int| 0 <= i < k ==> #[trigger] results[i] == Some(runs[0].spec_queue()[i]),
    decreases k,
{
    if k == 0 {
        assert(runs[0].spec_queue().skip(0) =~= runs[0].spec_queue());
    } else {
        lemma_queue_comes_out(runs, results, k - 1);
        lemma_images_kept(runs, results, k - 1);
        assert(Scheduler::next_post(runs[k - 1], runs[k], results[k - 1]));
        let q = runs[0].spec_queue();
        assert(q.skip(k - 1)[0] == q[k - 1]);
        assert(q.skip(k - 1).drop_first() =~= q.skip(k));
    }
}

/// An image added while it is not in the list is shown by a later
/// `next()` before any reshuffle: the calls that follow return the queue
/// that was waiting, then the new image.
pub proof fn lemma_added_image_is_shown(
    pre: Scheduler,
    runs: Seq<Scheduler>,
    results: Seq<Option<String>>,
    p: Seq<char>,
)
    requires
        add_post(pre, runs[0], p),
        !has_path(pre.spec_images(), p),
        next_run(runs, results),
        results.len() > pre.spec_queue().len(),
    ensures
        forall|i: int| 0 <= i < pre.spec_queue().len() ==> #[trigger] results[i] == Some(pre.spec_queue()[i]),
        results[pre.spec_queue().len() as int] matches Some(x) && x@ == p,
{
    let q = runs[0].spec_queue();
    lemma_queue_comes_out(runs, results, q.len() as int);
    assert forall|i: int| 0 <= i < pre.spec_queue().len() implies #[trigger] results[i] == Some(
        pre.spec_queue()[i],
    ) by {
        assert(q.drop_last()[i] == q[i]);
    }
    assert(q[q.len() - 1] == q.last());
}

/// The path `p` is nowhere in the scheduler, under any spelling: not
/// among the images, in the queue, in the history or on screen.
pub open spec fn absent(s: Scheduler, p: Seq<char>) -> bool {
    &&& !has_path(s.spec_images(), p)
    &&& !has_path(s.spec_queue(), p)
    &&& !has_path(s.spec_history(), p)
    &&& !(s.spec_current() matches Some(c) && components(c@) == components(p))
}

/// Nothing that `drop_path(s, q)` names is new to `s`.
proof fn lemma_drop_path_subset(s: Seq<String>, q: Seq<char>, p: Seq<char>)
    requires
        has_path(drop_path(s, q), p),
    ensures
        has_path(s, p),
        components(p) != components(q),
{
    let i = choose|i: int| 0 <= i < drop_path(s, q).len() && #[trigger] components(drop_path(s, q)[i]@) == components(p);
    lemma_drop_path_member(s, q, i);
    let j = choose|j: int| 0 <= j < s.len() && s[j] == drop_path(s, q)[i];
    assert(components(s[j]@) == components(p));
}

/// After `remove_image(p)`, `p` is nowhere in the scheduler; removing any
/// other path keeps an absent `p` absent.
pub proof fn lemma_remove_leaves_absent(pre: Scheduler, post: Scheduler, q: Seq<char>, p: Seq<char>)
    requires
        Scheduler::remove_post(pre, post, q),
        components(q) == components(p) || absent(pre, p),
    ensures
        absent(post, p),
{
    if has_path(post.spec_images(), p) {
        lemma_drop_path_subset(pre.spec_images(), q, p);
    }
    if has_path(post.spec_queue(), p) {
        lemma_drop_path_subset(pre.spec_queue(), q, p);
    }
    if has_path(post.spec_history(), p) {
        lemma_drop_path_subset(pre.spec_history(), q, p);
    }
}

/// A removed image stays away: `next()` does not return an absent `p`
/// and leaves it absent.
pub proof fn lemma_absent_after_next(pre: Scheduler, post: Scheduler, r: Option<String>, p: Seq<char>)
    requires
        absent(pre, p),
        Scheduler::next_post(pre, post, r),
    ensures
        absent(post, p),
        r matches Some(x) ==> components(x@) != components(p),
{
    if pre.spec_images().len() > 0 {
        let q = pre.spec_queue();
        let nq = if q.len() > 0 {
            q
        } else {
            seq![r->0] + post.spec_queue()
        };
        if q.len() == 0 {
            Scheduler::lemma_queue_for_in_images(pre.spec_images(), pre.spec_order(), pre.spec_current(), nq);
        }
        assert(post.spec_queue() =~= nq.drop_first());
        assert(r == Some(nq[0]));
        assert forall|i: int| 0 <= i < nq.len() implies components((#[trigger] nq[i])@) != components(p) by {
            if q.len() > 0 {
                if components(nq[i]@) == components(p) {
                    assert(has_path(q, p));
                }
            } else {
                assert(has_path(pre.spec_images(), nq[i]@));
            }
        }
        if has_path(post.spec_queue(), p) {
            let k = choose|k: int| 0 <= k < post.spec_queue().len() && #[trigger] components(post.spec_queue()[k]@) == components(p);
            assert(post.spec_queue()[k] == nq[k + 1]);
        }
        let h = pre.spec_history();
        if has_path(post.spec_history(), p) {
            let k = choose|k: int| 0 <= k < post.spec_history().len() && #[trigger] components(post.spec_history()[k]@) == components(p);
            match pre.spec_current() {
                Some(c) => {
                    if h.len() >= HISTORY_LIMIT {
                        if k < post.spec_history().len() - 1 {
                            assert(post.spec_history()[k] == h[k + 1]);
                        }
                    } else {
                        if k < h.len() {
                            assert(post.spec_history()[k] == h[k]);
                        }
                    }
                },
                None => {
                    assert(post.spec_history()[k] == h[k]);
                },
            }
        }
    }
}

/// A removed image stays away: `prev()` does not return an absent `p`
/// and leaves it absent.
pub proof fn lemma_absent_after_prev(pre: Scheduler, post: Scheduler, r: Option<String>, p: Seq<char>)
    requires
        absent(pre, p),
        Scheduler::prev_post(pre, post, r),
    ensures
        absent(post, p),
        r matches Some(x) ==> components(x@) != components(p),
{
    let h = pre.spec_history();
    if h.len() > 0 {
        if components(h.last()@) == components(p) {
            assert(components(h[h.len() - 1]@) == components(p));
        }
        if has_path(post.spec_history(), p) {
            let k = choose|k: int| 0 <= k < post.spec_history().len() && #[trigger] components(post.spec_history()[k]@) == components(p);
            assert(post.spec_history()[k] == h[k]);
        }
        if has_path(post.spec_queue(), p) {
            let k = choose|k: int| 0 <= k < post.spec_queue().len() && #[trigger] components(post.spec_queue()[k]@) == components(p);
            match pre.spec_current() {
                Some(c) => {
                    if k > 0 {
                        assert(post.spec_queue()[k] == pre.spec_queue()[k - 1]);
                    }
                },
                None => {},
            }
        }
    }
}

/// A removed image stays away: `peek_next()` does not name an absent `p`.
pub proof fn lemma_absent_not_peeked(s: Scheduler, p: Seq<char>)
    requires
        absent(s, p),
    ensures
        s.spec_queue().len() > 0 ==> components(s.spec_queue()[0]@) != components(p),
{
    if s.spec_queue().len() > 0 && components(s.spec_queue()[0]@) == components(p) {
        assert(has_path(s.spec_queue(), p));
    }
}

/// A removed image stays away until it is added again: adding another
/// path leaves `p` absent.
pub proof fn lemma_absent_after_other_add(pre: Scheduler, post: Scheduler, q: Seq<char>, p: Seq<char>)
    requires
        absent(pre, p),
        add_post(pre, post, q),
        components(q) != components(p),
    ensures
        absent(post, p),
{
    if !has_path(pre.spec_images(), q) {
        if has_path(post.spec_images(), p) {
            let k = choose|k: int| 0 <= k < post.spec_images().len() && #[trigger] components(post.spec_images()[k]@) == components(p);
            if k < pre.spec_images().len() {
                assert(post.spec_images()[k] == post.spec_images().drop_last()[k]);
            }
        }
        if has_path(post.spec_queue(), p) {
            let k = choose|k: int| 0 <= k < post.spec_queue().len() && #[trigger] components(post.spec_queue()[k]@) == components(p);
            if k < pre.spec_queue().len() {
                assert(post.spec_queue()[k] == post.spec_queue().drop_last()[k]);
            }
        }
    }
}

} // verus!
