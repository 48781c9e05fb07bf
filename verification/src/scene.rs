//! Scenes: sources placed on a canvas, ordered back to front.

use vstd::prelude::*;

verus! {

/// Unique identifier for a source within a scene.
#[derive(Debug, Clone, Copy, PartialEq, Eq, Structural, Hash)]
pub struct SourceId(pub u32);

/// How a source is scaled when its native resolution differs from the item bounds.
#[derive(Debug, Clone, Copy, PartialEq, Eq, Structural)]
pub enum ScaleMode {
    /// Stretch to fill the item bounds, ignoring aspect ratio.
    Stretch,
    /// Fit within the item bounds while preserving aspect ratio (letterbox).
    Fit,
    /// Fill the item bounds while preserving aspect ratio (crop).
    Fill,
    /// No scaling; render at native resolution (may overflow the item
    /// bounds or leave gaps in them).
    Unscaled,
}

/// Position and size of a source within the scene canvas, in whole pixels.
///
/// The compositor works on integer canvas coordinates: the left and top
/// edges are signed (an item may hang off the canvas), the size is a pixel
/// count.
#[derive(Debug, Clone, Copy, PartialEq, Eq, Structural)]
pub struct Transform {
    /// Left edge of the item on the scene canvas.
    pub x: i32,
    /// Top edge of the item on the scene canvas.
    pub y: i32,
    /// Width of the item bounds on the scene canvas.
    pub width: usize,
    /// Height of the item bounds on the scene canvas.
    pub height: usize,
    pub scale_mode: ScaleMode,
}

impl Transform {
    /// A transform that fills the entire canvas (for a single full-screen source).
    pub fn fullscreen(canvas_width: u32, canvas_height: u32) -> (t: Self)
        ensures
            t.x == 0,
            t.y == 0,
            t.width == canvas_width,
            t.height == canvas_height,
            t.scale_mode == ScaleMode::Fit,
    {
        Transform {
            x: 0,
            y: 0,
            width: canvas_width as usize,
            height: canvas_height as usize,
            scale_mode: ScaleMode::Fit,
        }
    }
}

/// One source placed in a scene, with its position and visibility.
#[derive(Debug, Clone, Copy, PartialEq, Eq, Structural)]
pub struct SceneItem {
    pub source_id: SourceId,
    pub transform: Transform,
    pub visible: bool,
    /// Lower z-order is drawn first (further back).
    pub z_order: i32,
}

/// `s` is ordered by ascending z-order.
pub open spec fn sorted_by_z(s: Seq<SceneItem>) -> bool {
    forall|i: int, j: int| 0 <= i <= j < s.len() ==> s[i].z_order <= s[j].z_order
}

/// Insert `x` into `s` after every trailing item whose z-order is greater
/// than `x`'s: one step of a stable insertion sort.
pub open spec fn insert_by_z(s: Seq<SceneItem>, x: SceneItem) -> Seq<SceneItem>
    decreases s.len(),
{
    if s.len() == 0 {
        seq![x]
    } else if s.last().z_order <= x.z_order {
        s.push(x)
    } else {
        insert_by_z(s.drop_last(), x).push(s.last())
    }
}

/// The stable sort of `s` by ascending z-order: items with equal z-order keep
/// their relative order.
pub open spec fn sort_by_z(s: Seq<SceneItem>) -> Seq<SceneItem>
    decreases s.len(),
{
    if s.len() == 0 {
        s
    } else {
        insert_by_z(sort_by_z(s.drop_last()), s.last())
    }
}

/// A collection of sources composited together to form one video output.
#[derive(Debug)]
pub struct Scene {
    pub name: String,
    pub canvas_width: u32,
    pub canvas_height: u32,
    items: Vec<SceneItem>,
}

/// What a `Scene` holds: its name, canvas size and items, back to front.
pub struct SceneView {
    pub name: Seq<char>,
    pub canvas_width: u32,
    pub canvas_height: u32,
    pub items: Seq<SceneItem>,
}

impl View for Scene {
    type V = SceneView;

    closed spec fn view(&self) -> SceneView {
        SceneView {
            name: self.name@,
            canvas_width: self.canvas_width,
            canvas_height: self.canvas_height,
            items: self.items@,
        }
    }
}

impl Scene {

    pub fn new(name: &str, canvas_width: u32, canvas_height: u32) -> (s: Self)
        ensures
            s@.name == name@,
            s@.canvas_width == canvas_width,
            s@.canvas_height == canvas_height,
            s@.items == Seq::<SceneItem>::empty(),
    {
        Scene { name: name.to_owned(), canvas_width, canvas_height, items: Vec::new() }
    }

    /// Add an item, keeping the items sorted by z-order (stably) so the
    /// compositor can iterate back to front.
    pub fn add_item(&mut self, item: SceneItem)
        ensures
            final(self)@.items == sort_by_z(old(self)@.items.push(item)),
            final(self)@.name == old(self)@.name,
            final(self)@.canvas_width == old(self)@.canvas_width,
            final(self)@.canvas_height == old(self)@.canvas_height,
    {
        self.items.push(item);
        sort_items_by_z(&mut self.items);
    }

    /// Width of the canvas, in pixels.
    pub fn canvas_width(&self) -> (w: u32)
        ensures
            w == self@.canvas_width,
    {
        self.canvas_width
    }

    /// Height of the canvas, in pixels.
    pub fn canvas_height(&self) -> (h: u32)
        ensures
            h == self@.canvas_height,
    {
        self.canvas_height
    }

    pub fn items(&self) -> (r: &[SceneItem])
        ensures
            r@ == self@.items,
    {
        self.items.as_slice()
    }

    pub fn items_mut(&mut self) -> (r: &mut Vec<SceneItem>)
        ensures
            r@ == old(self)@.items,
            final(self)@.items == final(r)@,
            final(self)@.name == old(self)@.name,
            final(self)@.canvas_width == old(self)@.canvas_width,
            final(self)@.canvas_height == old(self)@.canvas_height,
    {
        &mut self.items
    }
}

/// Stable insertion sort of `v` by ascending z-order.
fn sort_items_by_z(v: &mut Vec<SceneItem>)
    ensures
        final(v)@ == sort_by_z(old(v)@),
{
    let ghost orig = v@;
    let n = v.len();
    let mut i: usize = 0;
    while i < n
        invariant
            n == v.len(),
            n == orig.len(),
            i <= n,
            v@.take(i as int) == sort_by_z(orig.take(i as int)),
            v@.skip(i as int) == orig.skip(i as int),
        decreases n - i,
    {
        let ghost prefix = v@.take(i as int);
        let ghost x = orig[i as int];
        proof {
            assert(v@[i as int] == v@.skip(i as int)[0]);
            assert(orig.take(i + 1).drop_last() == orig.take(i as int));
            assert(orig.take(i + 1).last() == x);
            lemma_sort_by_z_sorted(orig.take(i as int));
        }
        let mut j: usize = i;
        proof {
            assert(v@.skip(i + 1) =~= orig.skip(i + 1)) by {
                assert forall|k: int| 0 <= k < v@.len() - (i + 1) implies #[trigger] v@.skip(i + 1)[k]
                    == orig.skip(i + 1)[k] by {
                    assert(v@.skip(i as int)[k + 1] == orig.skip(i as int)[k + 1]);
                }
            }
            assert(v@.take(i as int) =~= prefix.take(i as int));
            assert(v@.subrange(i + 1, i + 1) =~= prefix.subrange(i as int, i as int));
        }
        while j > 0 && v[j - 1].z_order > v[j].z_order
            invariant
                n == v.len(),
                j <= i < n,
                v@[j as int] == x,
                v@.take(j as int) == prefix.take(j as int),
                v@.subrange(j + 1, i + 1) == prefix.subrange(j as int, i as int),
                v@.skip(i + 1) == orig.skip(i + 1),
                forall|k: int| j <= k < i ==> #[trigger] prefix[k].z_order > x.z_order,
                prefix.len() == i,
                sorted_by_z(prefix),
            decreases j,
        {
            let ghost vold = v@;
            let ghost jo = j as int;
            proof {
                assert(vold.take(jo)[jo - 1] == vold[jo - 1]);
                assert(prefix.take(jo)[jo - 1] == prefix[jo - 1]);
            }
            let a = v[j - 1];
            let b = v[j];
            v.set(j - 1, b);
            v.set(j, a);
            j = j - 1;
            proof {
                assert(a == prefix[jo - 1]);
                assert forall|k: int| 0 <= k < jo - 1 implies #[trigger] v@[k] == prefix[k] by {
                    assert(vold.take(jo)[k] == vold[k]);
                    assert(prefix.take(jo)[k] == prefix[k]);
                }
                assert(v@.take(j as int) =~= prefix.take(j as int));
                assert forall|k: int| jo + 1 <= k < i + 1 implies #[trigger] v@[k] == prefix[k - 1] by {
                    assert(vold.subrange(jo + 1, i + 1)[k - jo - 1] == vold[k]);
                    assert(prefix.subrange(jo, i as int)[k - jo - 1] == prefix[k - 1]);
                }
                assert(v@.subrange(j + 1, i + 1) =~= prefix.subrange(j as int, i as int));
                assert forall|k: int| 0 <= k < v@.len() - (i + 1) implies #[trigger] v@.skip(i + 1)[k]
                    == orig.skip(i + 1)[k] by {
                    assert(vold.skip(i + 1)[k] == vold[i + 1 + k]);
                }
                assert(v@.skip(i + 1) =~= orig.skip(i + 1));
            }
        }
        proof {
            if j > 0 {
                assert(v@.take(j as int)[j - 1] == v@[j - 1]);
                assert(prefix.take(j as int)[j - 1] == prefix[j - 1]);
                assert(prefix[j - 1].z_order <= x.z_order);
            }
            lemma_insert_by_z_at(prefix, x, j as int);
            assert forall|k: int| 0 <= k < i + 1 implies #[trigger] v@.take(i + 1)[k]
                == (prefix.take(j as int) + seq![x] + prefix.skip(j as int))[k] by {
                if k < j {
                    assert(v@.take(j as int)[k] == v@[k]);
                } else if k > j {
                    assert(v@.subrange(j + 1, i + 1)[k - j - 1] == v@[k]);
                    assert(prefix.subrange(j as int, i as int)[k - j - 1] == prefix[k - 1]);
                }
            }
            assert(v@.take(i + 1) =~= prefix.take(j as int) + seq![x] + prefix.skip(j as int));
            assert(v@.skip(i + 1) == orig.skip(i + 1));
        }
        i = i + 1;
    }
    proof {
        assert(v@ =~= v@.take(n as int));
        assert(orig =~= orig.take(n as int));
    }
}

/// Where a stable insertion puts `x`: after the prefix that ends with an item
/// no greater than `x`, before the suffix of greater items.
proof fn lemma_insert_by_z_at(s: Seq<SceneItem>, x: SceneItem, j: int)
    requires
        0 <= j <= s.len(),
        j > 0 ==> s[j - 1].z_order <= x.z_order,
        forall|k: int| j <= k < s.len() ==> #[trigger] s[k].z_order > x.z_order,
    ensures
        insert_by_z(s, x) == s.take(j) + seq![x] + s.skip(j),
    decreases s.len(),
{
    if s.len() == 0 {
        assert(s.take(j) + seq![x] + s.skip(j) =~= seq![x]);
    } else if j == s.len() {
        assert(s.last().z_order <= x.z_order);
        assert(s.take(j) + seq![x] + s.skip(j) =~= s.push(x));
    } else {
        assert(s.last().z_order > x.z_order);
        let t = s.drop_last();
        lemma_insert_by_z_at(t, x, j);
        assert(t.take(j) + seq![x] + t.skip(j) + seq![s.last()] =~= s.take(j) + seq![x] + s.skip(j));
    }
}

/// Inserting into a sorted sequence keeps it sorted and adds exactly one item.
proof fn lemma_insert_by_z_sorted(s: Seq<SceneItem>, x: SceneItem)
    requires
        sorted_by_z(s),
    ensures
        sorted_by_z(insert_by_z(s, x)),
        insert_by_z(s, x).to_multiset() == s.to_multiset().insert(x),
        insert_by_z(s, x).len() == s.len() + 1,
    decreases s.len(),
{
    broadcast use vstd::seq_lib::group_to_multiset_ensures;
    if s.len() == 0 {
        assert(seq![x] =~= Seq::<SceneItem>::empty().push(x));
    } else if s.last().z_order <= x.z_order {
    } else {
        let t = s.drop_last();
        assert(s =~= t.push(s.last()));
        lemma_insert_by_z_sorted(t, x);
        let r = insert_by_z(t, x);
        assert forall|k: int| 0 <= k < r.len() implies #[trigger] r[k].z_order <= s.last().z_order by {
            assert(r.to_multiset().count(r[k]) > 0);
            assert(r.to_multiset() == t.to_multiset().insert(x));
            if r[k] != x {
                assert(t.to_multiset().count(r[k]) > 0);
                assert(t.contains(r[k]));
            }
        }
    }
}

/// The stable sort is sorted and holds the same items.
pub proof fn lemma_sort_by_z_sorted(s: Seq<SceneItem>)
    ensures
        sorted_by_z(sort_by_z(s)),
        sort_by_z(s).to_multiset() == s.to_multiset(),
        sort_by_z(s).len() == s.len(),
    decreases s.len(),
{
    broadcast use vstd::seq_lib::group_to_multiset_ensures;
    if s.len() > 0 {
        lemma_sort_by_z_sorted(s.drop_last());
        lemma_insert_by_z_sorted(sort_by_z(s.drop_last()), s.last());
        assert(s =~= s.drop_last().push(s.last()));
    }
}

} // verus!
