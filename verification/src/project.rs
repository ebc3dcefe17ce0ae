//! The persisted project value: the cel collection keyed by unique names
//! and the animation list.  Deleting a cel cascades into every animation,
//! removing the frames that referenced it while conserving each animation's
//! total play length.

use crate::animation::spec_first_index_with_id;
use crate::animation::spec_remove_frame;
use crate::animation::Animation;
use crate::animation::AnimationFrame;
use crate::cel::AnimationCel;
use crate::parse::str_eq;
use vstd::prelude::*;

verus! {

/// The durable editor state: cels addressed by name, animations in list
/// order.
pub struct Project {
    pub cels: Vec<AnimationCel>,
    pub animations: Vec<Animation>,
}

/// Index of the first cel carrying `name`, or -1.
pub open spec fn spec_first_cel_index(cels: Seq<AnimationCel>, name: Seq<char>) -> int
    decreases cels.len(),
{
    if cels.len() == 0 {
        -1
    } else if cels[0].name@ == name {
        0
    } else {
        let r = spec_first_cel_index(cels.skip(1), name);
        if r == -1 {
            -1
        } else {
            r + 1
        }
    }
}

/// Index of the first animation carrying `name`, or -1.
pub open spec fn spec_first_anim_index(anims: Seq<Animation>, name: Seq<char>) -> int
    decreases anims.len(),
{
    if anims.len() == 0 {
        -1
    } else if anims[0].name@ == name {
        0
    } else {
        let r = spec_first_anim_index(anims.skip(1), name);
        if r == -1 {
            -1
        } else {
            r + 1
        }
    }
}

/// When the cel at `j` carries `name` and no earlier cel does, `j` is the
/// first index with `name`.
pub proof fn lemma_first_cel_index_found(cels: Seq<AnimationCel>, name: Seq<char>, j: int)
    requires
        0 <= j < cels.len(),
        cels[j].name@ == name,
        forall|m: int| 0 <= m < j ==> (#[trigger] cels[m]).name@ != name,
    ensures
        spec_first_cel_index(cels, name) == j,
    decreases j,
{
    if j > 0 {
        assert(forall|m: int| 0 <= m < j - 1 ==> (#[trigger] cels.skip(1)[m]) == cels[m + 1]);
        assert(cels.skip(1)[j - 1] == cels[j]);
        lemma_first_cel_index_found(cels.skip(1), name, j - 1);
    }
}

/// When no cel carries `name`, the first index is -1.
pub proof fn lemma_first_cel_index_absent(cels: Seq<AnimationCel>, name: Seq<char>)
    requires
        forall|m: int| 0 <= m < cels.len() ==> (#[trigger] cels[m]).name@ != name,
    ensures
        spec_first_cel_index(cels, name) == -1,
    decreases cels.len(),
{
    if cels.len() > 0 {
        assert(forall|m: int|
            0 <= m < cels.len() - 1 ==> (#[trigger] cels.skip(1)[m]) == cels[m + 1]);
        lemma_first_cel_index_absent(cels.skip(1), name);
    }
}

/// When the animation at `j` carries `name` and no earlier one does, `j` is
/// the first index with `name`.
pub proof fn lemma_first_anim_index_found(anims: Seq<Animation>, name: Seq<char>, j: int)
    requires
        0 <= j < anims.len(),
        anims[j].name@ == name,
        forall|m: int| 0 <= m < j ==> (#[trigger] anims[m]).name@ != name,
    ensures
        spec_first_anim_index(anims, name) == j,
    decreases j,
{
    if j > 0 {
        assert(forall|m: int| 0 <= m < j - 1 ==> (#[trigger] anims.skip(1)[m]) == anims[m + 1]);
        assert(anims.skip(1)[j - 1] == anims[j]);
        lemma_first_anim_index_found(anims.skip(1), name, j - 1);
    }
}

/// When no animation carries `name`, the first index is -1.
pub proof fn lemma_first_anim_index_absent(anims: Seq<Animation>, name: Seq<char>)
    requires
        forall|m: int| 0 <= m < anims.len() ==> (#[trigger] anims[m]).name@ != name,
    ensures
        spec_first_anim_index(anims, name) == -1,
    decreases anims.len(),
{
    if anims.len() > 0 {
        assert(forall|m: int|
            0 <= m < anims.len() - 1 ==> (#[trigger] anims.skip(1)[m]) == anims[m + 1]);
        lemma_first_anim_index_absent(anims.skip(1), name);
    }
}

/// Ids of the frames that reference `name`, last occurrence first: the
/// order a batch removal must use so that earlier removals cannot disturb
/// later ones.
pub open spec fn spec_ids_of_cell(s: Seq<AnimationFrame>, name: Seq<char>) -> Seq<int>
    decreases s.len(),
{
    if s.len() == 0 {
        Seq::empty()
    } else {
        let rest = spec_ids_of_cell(s.drop_last(), name);
        if s.last().cell@ == name {
            seq![s.last().id as int] + rest
        } else {
            rest
        }
    }
}

/// What one removal demands: when the id is found, the frame is not at the
/// head and the merged duration fits a byte.
pub open spec fn spec_remove_ok(s: Seq<AnimationFrame>, id: int) -> bool {
    id != 0 && spec_first_index_with_id(s, id) >= 0 ==> {
        let j = spec_first_index_with_id(s, id);
        j >= 1 && s[j - 1].duration + s[j].duration <= 255
    }
}

/// The frame list after removing each id in turn.
pub open spec fn spec_remove_ids(s: Seq<AnimationFrame>, ids: Seq<int>) -> Seq<AnimationFrame>
    decreases ids.len(),
{
    if ids.len() == 0 {
        s
    } else {
        spec_remove_ids(spec_remove_frame(s, ids[0]), ids.skip(1))
    }
}

/// Whether every removal along the chain meets its demands.
pub open spec fn spec_remove_ids_ok(s: Seq<AnimationFrame>, ids: Seq<int>) -> bool
    decreases ids.len(),
{
    if ids.len() == 0 {
        true
    } else {
        spec_remove_ok(s, ids[0]) && spec_remove_ids_ok(spec_remove_frame(s, ids[0]), ids.skip(1))
    }
}

/// Ids collected over a split list are the back part's ids before the front
/// part's.
proof fn lemma_ids_of_cell_concat(a: Seq<AnimationFrame>, b: Seq<AnimationFrame>, name: Seq<char>)
    ensures
        spec_ids_of_cell(a + b, name) == spec_ids_of_cell(b, name) + spec_ids_of_cell(a, name),
    decreases b.len(),
{
    if b.len() == 0 {
        assert(a + b =~= a);
        assert(spec_ids_of_cell(b, name) + spec_ids_of_cell(a, name) =~= spec_ids_of_cell(a, name));
    } else {
        assert((a + b).drop_last() =~= a + b.drop_last());
        assert((a + b).last() == b.last());
        lemma_ids_of_cell_concat(a, b.drop_last(), name);
        if b.last().cell@ == name {
            assert(spec_ids_of_cell(a + b, name) =~= spec_ids_of_cell(b, name) + spec_ids_of_cell(
                a,
                name,
            ));
        } else {
            assert(spec_ids_of_cell(b, name) == spec_ids_of_cell(b.drop_last(), name));
        }
    }
}

impl Animation {
    /// Removes every frame that references `name`, merging each removed
    /// frame's duration into the frame before it; a referencing head frame
    /// (id 0) stays, dangling.  The removal chain must meet each removal's
    /// demands.
    pub fn remove_frames_of_cell(&mut self, name: &str)
        requires
            spec_remove_ids_ok(
                old(self).frames@,
                spec_ids_of_cell(old(self).frames@, name@),
            ),
        ensures
            final(self).name == old(self).name,
            final(self).current_frame == old(self).current_frame,
            final(self).duration == old(self).duration,
            final(self).frames@ == spec_remove_ids(
                old(self).frames@,
                spec_ids_of_cell(old(self).frames@, name@),
            ),
    {
        let ghost orig = self.frames@;
        let ghost ids = spec_ids_of_cell(orig, name@);

        let mut removal_ids: Vec<usize> = Vec::new();
        let n = self.frames.len();
        let mut f: usize = n;
        proof {
            assert(orig.skip(n as int) =~= Seq::<AnimationFrame>::empty());
        }
        while f > 0
            invariant
                self.frames@ == orig,
                n == orig.len(),
                f <= n,
                removal_ids@.map_values(|x: usize| x as int) == spec_ids_of_cell(
                    orig.skip(f as int),
                    name@,
                ),
            decreases f,
        {
            f = f - 1;
            let matches = str_eq(self.frames[f].cell.as_str(), name);
            proof {
                assert(orig.skip(f as int) =~= seq![orig[f as int]] + orig.skip(f as int + 1));
                lemma_ids_of_cell_concat(seq![orig[f as int]], orig.skip(f as int + 1), name@);
                assert((seq![orig[f as int]]).drop_last() =~= Seq::<AnimationFrame>::empty());
                assert((seq![orig[f as int]]).last() == orig[f as int]);
                assert(spec_ids_of_cell(Seq::<AnimationFrame>::empty(), name@) =~= Seq::<
                    int,
                >::empty());
            }
            if matches {
                let id = self.frames[f].id;
                removal_ids.push(id);
                proof {
                    assert(spec_ids_of_cell(seq![orig[f as int]], name@) =~= seq![
                        orig[f as int].id as int,
                    ]);
                    assert(removal_ids@.map_values(|x: usize| x as int) =~= spec_ids_of_cell(
                        orig.skip(f as int + 1),
                        name@,
                    ) + seq![orig[f as int].id as int]);
                    assert(spec_ids_of_cell(orig.skip(f as int), name@) =~= spec_ids_of_cell(
                        orig.skip(f as int + 1),
                        name@,
                    ) + seq![orig[f as int].id as int]);
                }
            } else {
                proof {
                    assert(spec_ids_of_cell(seq![orig[f as int]], name@)
                        =~= Seq::<int>::empty());
                    assert(spec_ids_of_cell(orig.skip(f as int), name@) =~= spec_ids_of_cell(
                        orig.skip(f as int + 1),
                        name@,
                    ));
                }
            }
        }
        proof {
            assert(orig.skip(0) =~= orig);
        }

        let count = removal_ids.len();
        let mut r: usize = 0;
        proof {
            assert(ids.skip(0) =~= ids);
            assert(ids.take(0) =~= Seq::<int>::empty());
        }
        while r < count
            invariant
                count == removal_ids@.len(),
                r <= count,
                removal_ids@.map_values(|x: usize| x as int) == ids,
                self.name == old(self).name,
                self.current_frame == old(self).current_frame,
                self.duration == old(self).duration,
                self.frames@ == spec_remove_ids(orig, ids.take(r as int)),
                spec_remove_ids_ok(self.frames@, ids.skip(r as int)),
                spec_remove_ids(orig, ids) == spec_remove_ids(self.frames@, ids.skip(r as int)),
            decreases count - r,
        {
            let id = removal_ids[r];
            proof {
                assert(ids.skip(r as int)[0] == ids[r as int]);
                assert(ids[r as int] == id as int);
                assert(ids.skip(r as int).skip(1) =~= ids.skip(r as int + 1));
            }
            self.remove_anim_frame(id);
            r = r + 1;
            proof {
                assert(ids.take(r as int).drop_last() =~= ids.take(r as int - 1));
                lemma_remove_ids_take_step(orig, ids, r as int);
            }
        }
        proof {
            assert(ids.take(count as int) =~= ids);
            assert(ids.skip(count as int) =~= Seq::<int>::empty());
        }
    }
}

/// Folding one more removal into a prefix of the chain.
proof fn lemma_remove_ids_take_step(s: Seq<AnimationFrame>, ids: Seq<int>, r: int)
    requires
        1 <= r <= ids.len(),
    ensures
        spec_remove_ids(s, ids.take(r)) == spec_remove_frame(
            spec_remove_ids(s, ids.take(r - 1)),
            ids[r - 1],
        ),
    decreases r,
{
    if r == 1 {
        assert(ids.take(1)[0] == ids[0]);
        assert(ids.take(1).skip(1) =~= Seq::<int>::empty());
        assert(ids.take(0) =~= Seq::<int>::empty());
        assert(spec_remove_ids(s, Seq::<int>::empty()) == s);
        assert(spec_remove_ids(spec_remove_frame(s, ids[0]), Seq::<int>::empty())
            == spec_remove_frame(s, ids[0]));
    } else {
        assert(ids.take(r)[0] == ids[0]);
        assert(ids.take(r).skip(1) =~= ids.skip(1).take(r - 1));
        assert(ids.take(r - 1)[0] == ids[0]);
        assert(ids.take(r - 1).skip(1) =~= ids.skip(1).take(r - 2));
        assert(forall|m: int| 0 <= m < ids.len() - 1 ==> (#[trigger] ids.skip(1)[m]) == ids[m + 1]);
        lemma_remove_ids_take_step(spec_remove_frame(s, ids[0]), ids.skip(1), r - 1);
    }
}

impl Project {
    /// An empty project.
    pub fn new() -> (r: Project)
        ensures
            r.cels@.len() == 0,
            r.animations@.len() == 0,
    {
        Project { cels: Vec::new(), animations: Vec::new() }
    }

    /// Index of the cel carrying `name`.
    pub fn find_cel(&self, name: &str) -> (r: Option<usize>)
        ensures
            match r {
                Some(i) => spec_first_cel_index(self.cels@, name@) == i as int && (i as int)
                    < self.cels@.len(),
                None => spec_first_cel_index(self.cels@, name@) == -1,
            },
    {
        let n = self.cels.len();
        let mut j: usize = 0;
        while j < n
            invariant
                n == self.cels@.len(),
                j <= n,
                forall|m: int| 0 <= m < j ==> (#[trigger] self.cels@[m]).name@ != name@,
            decreases n - j,
        {
            if str_eq(self.cels[j].name.as_str(), name) {
                proof {
                    lemma_first_cel_index_found(self.cels@, name@, j as int);
                }
                return Some(j);
            }
            j = j + 1;
        }
        proof {
            lemma_first_cel_index_absent(self.cels@, name@);
        }
        None
    }

    /// Creates an empty cel under `name`; a cel already carrying the name
    /// is replaced, keeping the collection keyed by unique names.
    pub fn create_animation_cell(&mut self, name: String)
        ensures
            final(self).animations@ == old(self).animations@,
            spec_first_cel_index(old(self).cels@, name@) >= 0 ==> ({
                let j = spec_first_cel_index(old(self).cels@, name@);
                &&& final(self).cels@.len() == old(self).cels@.len()
                &&& final(self).cels@[j].name == name
                &&& final(self).cels@[j].oams@.len() == 0
                &&& forall|m: int|
                    0 <= m < old(self).cels@.len() && m != j ==> #[trigger] final(self).cels@[m]
                        == old(self).cels@[m]
            }),
            spec_first_cel_index(old(self).cels@, name@) == -1 ==> ({
                &&& final(self).cels@.len() == old(self).cels@.len() + 1
                &&& final(self).cels@.last().name == name
                &&& final(self).cels@.last().oams@.len() == 0
                &&& forall|m: int|
                    0 <= m < old(self).cels@.len() ==> #[trigger] final(self).cels@[m] == old(
                        self,
                    ).cels@[m]
            }),
    {
        let found = self.find_cel(name.as_str());
        match found {
            Some(i) => {
                self.cels[i] = AnimationCel { name, oams: Vec::new() };
            },
            None => {
                self.cels.push(AnimationCel { name, oams: Vec::new() });
            },
        }
    }

    /// Deletes the cel carrying `name` (a no-op when absent) and removes
    /// every frame referencing it from every animation, conserving each
    /// animation's total play length.  Every removal chain must meet its
    /// demands.
    pub fn remove_animation_cell(&mut self, name: &str)
        requires
            forall|a: int|
                0 <= a < old(self).animations@.len() ==> spec_remove_ids_ok(
                    (#[trigger] old(self).animations@[a]).frames@,
                    spec_ids_of_cell(old(self).animations@[a].frames@, name@),
                ),
        ensures
            spec_first_cel_index(old(self).cels@, name@) >= 0 ==> final(self).cels@ == old(
                self,
            ).cels@.remove(spec_first_cel_index(old(self).cels@, name@)),
            spec_first_cel_index(old(self).cels@, name@) == -1 ==> final(self).cels@ == old(
                self,
            ).cels@,
            final(self).animations@.len() == old(self).animations@.len(),
            forall|a: int|
                0 <= a < old(self).animations@.len() ==> {
                    let before = #[trigger] old(self).animations@[a];
                    let after = final(self).animations@[a];
                    after.name == before.name && after.current_frame == before.current_frame
                        && after.duration == before.duration && after.frames@ == spec_remove_ids(
                        before.frames@,
                        spec_ids_of_cell(before.frames@, name@),
                    )
                },
    {
        let found = self.find_cel(name);
        match found {
            Some(i) => {
                self.cels.remove(i);
            },
            None => {
            },
        }
        let n = self.animations.len();
        let mut a: usize = 0;
        while a < n
            invariant
                n == self.animations@.len(),
                n == old(self).animations@.len(),
                a <= n,
                forall|m: int|
                    0 <= m < n ==> spec_remove_ids_ok(
                        (#[trigger] old(self).animations@[m]).frames@,
                        spec_ids_of_cell(old(self).animations@[m].frames@, name@),
                    ),
                forall|m: int| a <= m < n ==> #[trigger] self.animations@[m] == old(
                    self,
                ).animations@[m],
                forall|m: int|
                    0 <= m < a ==> {
                        let before = #[trigger] old(self).animations@[m];
                        let after = self.animations@[m];
                        after.name == before.name && after.current_frame == before.current_frame
                            && after.duration == before.duration && after.frames@
                            == spec_remove_ids(
                            before.frames@,
                            spec_ids_of_cell(before.frames@, name@),
                        )
                    },
                self.cels@ == spec_cels_after(old(self).cels@, name@),
            decreases n - a,
        {
            self.animations[a].remove_frames_of_cell(name);
            a = a + 1;
        }
    }

    /// Appends a new, empty animation under `name`.
    pub fn create_animation(&mut self, name: String)
        ensures
            final(self).cels@ == old(self).cels@,
            final(self).animations@.len() == old(self).animations@.len() + 1,
            forall|m: int|
                0 <= m < old(self).animations@.len() ==> #[trigger] final(self).animations@[m]
                    == old(self).animations@[m],
            final(self).animations@.last().name == name,
            final(self).animations@.last().frames@.len() == 0,
            final(self).animations@.last().current_frame == 0,
            final(self).animations@.last().duration == 0,
    {
        self.animations.push(
            Animation { frames: Vec::new(), name, current_frame: 0, duration: 0 },
        );
    }

    /// Deletes the animation carrying `name`; a no-op when absent.
    pub fn remove_animation(&mut self, name: &str)
        ensures
            final(self).cels@ == old(self).cels@,
            spec_first_anim_index(old(self).animations@, name@) >= 0 ==> final(self).animations@
                == old(self).animations@.remove(
                spec_first_anim_index(old(self).animations@, name@),
            ),
            spec_first_anim_index(old(self).animations@, name@) == -1 ==> final(self).animations@
                == old(self).animations@,
    {
        let n = self.animations.len();
        let mut j: usize = 0;
        while j < n
            invariant
                n == self.animations@.len(),
                self.animations@ == old(self).animations@,
                self.cels@ == old(self).cels@,
                j <= n,
                forall|m: int| 0 <= m < j ==> (#[trigger] self.animations@[m]).name@ != name@,
            decreases n - j,
        {
            if str_eq(self.animations[j].name.as_str(), name) {
                proof {
                    lemma_first_anim_index_found(self.animations@, name@, j as int);
                }
                self.animations.remove(j);
                return ;
            }
            j = j + 1;
        }
        proof {
            lemma_first_anim_index_absent(self.animations@, name@);
        }
    }
}

/// The cel list after deleting `name`: the first carrier removed, or the
/// list unchanged.
pub open spec fn spec_cels_after(cels: Seq<AnimationCel>, name: Seq<char>) -> Seq<AnimationCel> {
    let j = spec_first_cel_index(cels, name);
    if j >= 0 {
        cels.remove(j)
    } else {
        cels
    }
}

} // verus!
