//! Sprite-sheet descriptions: the frames and named frame ranges of an animation.
use vstd::prelude::*;

verus! {

/// One frame of a sprite-sheet description.
#[derive(Clone, Debug)]
pub struct Frame {
    pub duration: u32,
}

/// A named run of frames, `from .. to`.
#[derive(Clone, Debug)]
pub struct FrameTag {
    pub name: String,
    pub from: u32,
    pub to: u32,
    pub direction: String,
}

/// Metadata of a sprite-sheet description.
#[derive(Clone, Debug)]
pub struct Meta {
    pub app: String,
    pub version: String,
    pub image: String,
    pub format: String,
    pub scale: String,
    pub frame_tags: Vec<FrameTag>,
}

/// A sprite-sheet description as an exporter writes it.
#[derive(Clone, Debug)]
pub struct Desc {
    pub frames: Vec<Frame>,
    pub meta: Meta,
}

/// The frames `start .. end` that a name stands for.
#[derive(Clone, Debug)]
pub struct NamedRange {
    pub name: String,
    pub start: u32,
    pub end: u32,
}

/// A loaded sprite sheet: its named frame ranges (each name once) and each frame's duration.
#[derive(Clone, Debug)]
pub struct Spritesheet {
    pub image: String,
    pub ranges: Vec<NamedRange>,
    pub durations: Vec<u32>,
}

/// Names to ranges, as the tags give them; of two tags with one name the later counts.
pub open spec fn tag_map(tags: Seq<FrameTag>) -> Map<Seq<char>, (u32, u32)>
    decreases tags.len(),
{
    if tags.len() == 0 {
        Map::empty()
    } else {
        tag_map(tags.drop_last()).insert(tags.last().name@, (tags.last().from, tags.last().to))
    }
}

/// The table that `ranges` stands for.
pub open spec fn range_map(ranges: Seq<NamedRange>) -> Map<Seq<char>, (u32, u32)>
    decreases ranges.len(),
{
    if ranges.len() == 0 {
        Map::empty()
    } else {
        range_map(ranges.drop_last()).insert(
            ranges.last().name@,
            (ranges.last().start, ranges.last().end),
        )
    }
}

/// No two entries share a name.
pub open spec fn names_unique(ranges: Seq<NamedRange>) -> bool {
    forall|i: int, j: int|
        0 <= i < j < ranges.len() ==> (#[trigger] ranges[i]).name@ != (#[trigger] ranges[j]).name@
}

proof fn lemma_range_map_domain(ranges: Seq<NamedRange>, n: Seq<char>)
    ensures
        range_map(ranges).contains_key(n) <==> exists|i: int|
            0 <= i < ranges.len() && (#[trigger] ranges[i]).name@ == n,
    decreases ranges.len(),
{
    if ranges.len() > 0 {
        let init = ranges.drop_last();
        lemma_range_map_domain(init, n);
        if exists|i: int| 0 <= i < ranges.len() && (#[trigger] ranges[i]).name@ == n {
            let i = choose|i: int| 0 <= i < ranges.len() && (#[trigger] ranges[i]).name@ == n;
            if i < init.len() {
                assert(init[i].name@ == n);
            }
        }
        if exists|i: int| 0 <= i < init.len() && (#[trigger] init[i]).name@ == n {
            let i = choose|i: int| 0 <= i < init.len() && (#[trigger] init[i]).name@ == n;
            assert(ranges[i].name@ == n);
        }
    }
}

/// Replacing the entry at `i` by one of the same name, in a table without repeated names,
/// updates that name's range.
proof fn lemma_range_map_replace(ranges: Seq<NamedRange>, i: int, e: NamedRange)
    requires
        names_unique(ranges),
        0 <= i < ranges.len(),
        e.name@ == ranges[i].name@,
    ensures
        range_map(ranges.update(i, e)) == range_map(ranges).insert(e.name@, (e.start, e.end)),
    decreases ranges.len(),
{
    let r2 = ranges.update(i, e);
    let init = ranges.drop_last();
    if i == ranges.len() - 1 {
        assert(r2.drop_last() =~= init);
        assert(range_map(r2) =~= range_map(ranges).insert(e.name@, (e.start, e.end)));
    } else {
        assert(r2.drop_last() =~= init.update(i, e));
        lemma_range_map_replace(init, i, e);
        assert(ranges.last().name@ != e.name@) by {
            assert(ranges[i].name@ != ranges[ranges.len() - 1].name@);
        }
        assert(range_map(r2) =~= range_map(ranges).insert(e.name@, (e.start, e.end)));
    }
}

proof fn lemma_unique_after_rename(ranges: Seq<NamedRange>, j: int, e: NamedRange)
    requires
        names_unique(ranges),
        0 <= j < ranges.len(),
        e.name@ == ranges[j].name@,
    ensures
        names_unique(ranges.update(j, e)),
{
    let r = ranges.update(j, e);
    assert forall|a: int, b: int| 0 <= a < b < r.len() implies (#[trigger] r[a]).name@
        != (#[trigger] r[b]).name@ by {
        assert(ranges[a].name@ != ranges[b].name@);
        assert(r[a].name@ == ranges[a].name@);
        assert(r[b].name@ == ranges[b].name@);
    }
}

/// Builds the table of named ranges from the tags, one entry per name, the later tag of a
/// repeated name winning.
fn ranges_from_tags(tags: &Vec<FrameTag>) -> (r: Vec<NamedRange>)
    ensures
        names_unique(r@),
        range_map(r@) == tag_map(tags@),
{
    let mut r: Vec<NamedRange> = Vec::new();
    let mut i: usize = 0;
    while i < tags.len()
        invariant
            0 <= i <= tags@.len(),
            names_unique(r@),
            range_map(r@) == tag_map(tags@.take(i as int)),
        decreases tags@.len() - i,
    {
        let tag = &tags[i];
        let entry = NamedRange { name: tag.name.clone(), start: tag.from, end: tag.to };
        let mut j: usize = 0;
        let mut found = false;
        while j < r.len()
            invariant
                0 <= j <= r@.len(),
                names_unique(r@),
                entry.name@ == tag.name@,
                found ==> j < r@.len() && r@[j as int].name@ == entry.name@,
                !found ==> forall|k: int| 0 <= k < j ==> (#[trigger] r@[k]).name@ != entry.name@,
            ensures
                found || j == r@.len(),
            decreases r@.len() - j,
        {
            if r[j].name == entry.name {
                found = true;
                break;
            }
            j = j + 1;
        }
        proof {
            assert(tags@.take(i + 1).drop_last() =~= tags@.take(i as int));
            assert(tags@.take(i + 1).last() == *tag);
        }
        if found {
            proof {
                lemma_range_map_replace(r@, j as int, entry);
            }
            let ghost before = r@;
            let ghost e = entry;
            r.set(j, entry);
            proof {
                lemma_unique_after_rename(before, j as int, e);
            }
        } else {
            let ghost before = r@;
            let ghost e = entry;
            r.push(entry);
            proof {
                assert(r@.drop_last() =~= before);
                assert forall|a: int, b: int| 0 <= a < b < r@.len() implies (#[trigger] r@[a]).name@
                    != (#[trigger] r@[b]).name@ by {
                    assert(r@[a] == before[a]);
                    if b < before.len() {
                        assert(before[a].name@ != before[b].name@);
                    } else {
                        assert(r@[b] == e);
                        assert(before[a].name@ != e.name@);
                    }
                }
            }
        }
        i = i + 1;
    }
    proof {
        assert(tags@.take(tags@.len() as int) =~= tags@);
    }
    r
}

impl Spritesheet {
    /// The sprite sheet that a description gives: its tags as named ranges and the
    /// durations of its frames, in order; no image yet.
    pub fn from_desc(desc: &Desc) -> (r: Spritesheet)
        ensures
            r.image@.len() == 0,
            names_unique(r.ranges@),
            range_map(r.ranges@) == tag_map(desc.meta.frame_tags@),
            r.durations@.len() == desc.frames@.len(),
            forall|i: int|
                0 <= i < r.durations@.len() ==> r.durations@[i] == (#[trigger] desc.frames@[i]).duration,
    {
        let ranges = ranges_from_tags(&desc.meta.frame_tags);
        let mut durations: Vec<u32> = Vec::new();
        let mut i: usize = 0;
        while i < desc.frames.len()
            invariant
                0 <= i <= desc.frames@.len(),
                durations@.len() == i,
                forall|k: int| 0 <= k < i ==> durations@[k] == (#[trigger] desc.frames@[k]).duration,
            decreases desc.frames@.len() - i,
        {
            durations.push(desc.frames[i].duration);
            i = i + 1;
        }
        Spritesheet { image: String::new(), ranges, durations }
    }

    /// The range named `name`, if the sheet has one.
    pub fn range(&self, name: &String) -> (r: Option<(u32, u32)>)
        requires
            names_unique(self.ranges@),
        ensures
            r matches Some(v) ==> range_map(self.ranges@).contains_key(name@) && range_map(
                self.ranges@,
            )[name@] == v,
            r is None ==> !range_map(self.ranges@).contains_key(name@),
    {
        let mut j: usize = 0;
        while j < self.ranges.len()
            invariant
                0 <= j <= self.ranges@.len(),
                names_unique(self.ranges@),
                forall|k: int| 0 <= k < j ==> (#[trigger] self.ranges@[k]).name@ != name@,
            decreases self.ranges@.len() - j,
        {
            if self.ranges[j].name == *name {
                proof {
                    lemma_range_map_lookup(self.ranges@, j as int);
                }
                return Some((self.ranges[j].start, self.ranges[j].end));
            }
            j = j + 1;
        }
        proof {
            lemma_range_map_domain(self.ranges@, name@);
        }
        None
    }
}

proof fn lemma_range_map_lookup(ranges: Seq<NamedRange>, i: int)
    requires
        names_unique(ranges),
        0 <= i < ranges.len(),
    ensures
        range_map(ranges).contains_key(ranges[i].name@),
        range_map(ranges)[ranges[i].name@] == (ranges[i].start, ranges[i].end),
    decreases ranges.len(),
{
    if i < ranges.len() - 1 {
        let init = ranges.drop_last();
        assert(init[i] == ranges[i]);
        lemma_range_map_lookup(init, i);
        assert(ranges[i].name@ != ranges[ranges.len() - 1].name@);
    }
}

} // verus!
