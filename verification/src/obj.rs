//! The OBJ exporter's bookkeeping: group keys, per-group vertex and face
//! lists, grouping of objects by key, and the OBJ / MTL text.
//!
//! Objects are partitioned into named OBJ groups. With `group_by_tag`, objects
//! with different tags go to different groups; with `group_by_color`, objects
//! with different colours do. With neither flag, all objects land in a single
//! group named `"default"`. Vertex positions are carried as opaque values of
//! the caller's type `V`.

use vstd::prelude::*;

use crate::color::{rgb_hex, rgb_hex_text};

verus! {

/// OBJ export options.
#[derive(Debug)]
pub struct ObjExporter {
    /// Number of latitude *and* longitude bands for sphere tessellation.
    pub sphere_segments: u32,
    /// Group objects by their `tag` field.
    pub group_by_tag: bool,
    /// Group objects by their colour.
    pub group_by_color: bool,
    /// Name of the MTL file referenced in the OBJ header (without directory).
    pub mtl_file_name: String,
}

impl Default for ObjExporter {
    fn default() -> (r: Self)
        ensures
            r.sphere_segments == 16,
            !r.group_by_tag,
            !r.group_by_color,
            r.mtl_file_name@ == "output.mtl"@,
    {
        Self {
            sphere_segments: 16,
            group_by_tag: false,
            group_by_color: false,
            mtl_file_name: String::from_str("output.mtl"),
        }
    }
}

/// Result of a successful OBJ export.
pub struct ObjOutput {
    /// Contents of the `.obj` file.
    pub obj: String,
    /// Contents of the `.mtl` file.
    pub mtl: String,
}

/// The group an object goes to: its tag (when grouping by tag and the tag is
/// not empty), then its colour as `#rrggbb` (when grouping by colour); an empty
/// key becomes `default`.
pub open spec fn group_key_text(
    by_tag: bool,
    by_color: bool,
    tag: Option<Seq<char>>,
    rgb: (u8, u8, u8),
) -> Seq<char> {
    let t = if by_tag && tag is Some && tag->0.len() > 0 { tag->0 } else { seq![] };
    let k = t + if by_color { rgb_hex_text(rgb.0, rgb.1, rgb.2) } else { seq![] };
    if k.len() == 0 {
        "default"@
    } else {
        k
    }
}

impl ObjExporter {
    /// The group key of an object with the given tag and 8-bit colour.
    pub fn group_key(&self, tag: &Option<String>, rgb: (u8, u8, u8)) -> (key: String)
        ensures
            key@ == group_key_text(
                self.group_by_tag,
                self.group_by_color,
                crate::ast::opt_view(*tag),
                rgb,
            ),
    {
        let mut key = String::new();
        if self.group_by_tag {
            if let Some(tag) = tag {
                if tag.as_str().unicode_len() > 0 {
                    key.append(tag.as_str());
                }
            }
        }
        if self.group_by_color {
            let hex = rgb_hex(rgb.0, rgb.1, rgb.2);
            key.append(hex.as_str());
        }
        if key.as_str().unicode_len() == 0 {
            key.append("default");
        }
        proof {
            let t = crate::ast::opt_view(*tag);
            let tpart = if self.group_by_tag && t is Some && t->0.len() > 0 { t->0 } else { seq![] };
            assert(key@ =~= group_key_text(self.group_by_tag, self.group_by_color, t, rgb)) by {
                let k = tpart + if self.group_by_color { rgb_hex_text(rgb.0, rgb.1, rgb.2) } else { seq![] };
                if k.len() == 0 {
                    assert(tpart =~= Seq::<char>::empty());
                }
            }
        }
        key
    }
}

/// With neither flag set, every object lands in the one group `default`.
pub proof fn lemma_ungrouped_is_default(tag: Option<Seq<char>>, rgb: (u8, u8, u8))
    ensures
        group_key_text(false, false, tag, rgb) == "default"@,
{
    assert(Seq::<char>::empty() + Seq::<char>::empty() =~= Seq::<char>::empty());
}

/// Grouping by tag puts objects with different non-empty tags (and the same
/// colour) into different groups.
pub proof fn lemma_tags_separate(
    by_color: bool,
    t1: Seq<char>,
    t2: Seq<char>,
    rgb: (u8, u8, u8),
)
    requires
        t1.len() > 0,
        t2.len() > 0,
        t1 != t2,
    ensures
        group_key_text(true, by_color, Some(t1), rgb) != group_key_text(true, by_color, Some(t2), rgb),
{
    let h = if by_color { rgb_hex_text(rgb.0, rgb.1, rgb.2) } else { seq![] };
    let k1 = t1 + h;
    let k2 = t2 + h;
    if k1 == k2 {
        assert(k1.len() == k2.len());
        assert(t1 =~= k1.take(t1.len() as int));
        assert(t2 =~= k2.take(t2.len() as int));
    }
}

/// Grouping by colour puts objects with different colours into different
/// groups, whatever their tags.
pub proof fn lemma_colors_separate(
    by_tag: bool,
    tag1: Option<Seq<char>>,
    tag2: Option<Seq<char>>,
    c1: (u8, u8, u8),
    c2: (u8, u8, u8),
)
    requires
        c1 != c2,
    ensures
        group_key_text(by_tag, true, tag1, c1) != group_key_text(by_tag, true, tag2, c2),
{
    let t1 = if by_tag && tag1 is Some && tag1->0.len() > 0 { tag1->0 } else { seq![] };
    let t2 = if by_tag && tag2 is Some && tag2->0.len() > 0 { tag2->0 } else { seq![] };
    let h1 = rgb_hex_text(c1.0, c1.1, c1.2);
    let h2 = rgb_hex_text(c2.0, c2.1, c2.2);
    let k1 = t1 + h1;
    let k2 = t2 + h2;
    assert(k1.len() > 0 && k2.len() > 0);
    if k1 == k2 {
        assert(h1 =~= k1.skip(t1.len() as int));
        assert(h2 =~= k2.skip(t2.len() as int));
        assert(t1.len() == t2.len());
        crate::color::lemma_hex_round_trip(c1.0, c1.1, c1.2);
        crate::color::lemma_hex_round_trip(c2.0, c2.1, c2.2);
    }
}

/// A vertex reference of a face: 1-based vertex index within the group, and
/// 1-based normal index or 0 for none.
#[derive(Debug, Clone, Copy, PartialEq, Eq, Structural)]
pub struct VertexNormal {
    pub v: usize,
    pub n: usize,
}

/// The geometry of one OBJ group: vertices, normals and faces (a face of one
/// vertex is a point, of two a line, of more a polygon).
#[derive(Debug)]
pub struct ObjGroup<V> {
    pub vertices: Vec<V>,
    pub normals: Vec<V>,
    pub faces: Vec<Vec<VertexNormal>>,
}

impl<V> ObjGroup<V> {
    /// An empty group.
    pub fn new() -> (g: Self)
        ensures
            g.vertices@.len() == 0,
            g.normals@.len() == 0,
            g.faces@.len() == 0,
    {
        ObjGroup { vertices: Vec::new(), normals: Vec::new(), faces: Vec::new() }
    }
}

/// The faces of a group, as sequences of vertex references.
pub open spec fn faces_view(faces: Seq<Vec<VertexNormal>>) -> Seq<Seq<VertexNormal>> {
    faces.map_values(|f: Vec<VertexNormal>| f@)
}

/// Append a line from `from` to `to`: two new vertices and a two-vertex face.
pub fn add_line_to_group<V>(group: &mut ObjGroup<V>, from: V, to: V)
    requires
        old(group).vertices@.len() + 2 <= usize::MAX,
    ensures
        final(group).vertices@ == old(group).vertices@.push(from).push(to),
        final(group).normals@ == old(group).normals@,
        faces_view(final(group).faces@) == faces_view(old(group).faces@).push(
            seq![
                VertexNormal { v: (old(group).vertices@.len() + 1) as usize, n: 0 },
                VertexNormal { v: (old(group).vertices@.len() + 2) as usize, n: 0 },
            ],
        ),
{
    let vi = group.vertices.len() + 1;
    group.vertices.push(from);
    group.vertices.push(to);
    let mut face: Vec<VertexNormal> = Vec::new();
    face.push(VertexNormal { v: vi, n: 0 });
    face.push(VertexNormal { v: vi + 1, n: 0 });
    let ghost before = faces_view(group.faces@);
    group.faces.push(face);
    assert(faces_view(group.faces@) =~= before.push(face@));
    assert(face@ =~= seq![VertexNormal { v: vi, n: 0 }, VertexNormal { v: (vi + 1) as usize, n: 0 }]);
}

/// Append a point at `pos`: one new vertex and a one-vertex face.
pub fn add_dot_to_group<V>(group: &mut ObjGroup<V>, pos: V)
    requires
        old(group).vertices@.len() + 1 <= usize::MAX,
    ensures
        final(group).vertices@ == old(group).vertices@.push(pos),
        final(group).normals@ == old(group).normals@,
        faces_view(final(group).faces@) == faces_view(old(group).faces@).push(
            seq![VertexNormal { v: (old(group).vertices@.len() + 1) as usize, n: 0 }],
        ),
{
    let vi = group.vertices.len() + 1;
    group.vertices.push(pos);
    let mut face: Vec<VertexNormal> = Vec::new();
    face.push(VertexNormal { v: vi, n: 0 });
    let ghost before = faces_view(group.faces@);
    group.faces.push(face);
    assert(faces_view(group.faces@) =~= before.push(face@));
    assert(face@ =~= seq![VertexNormal { v: vi, n: 0 }]);
}

/// Append a triangle when exactly three points were read from its payload:
/// three new vertices and a three-vertex face. Any other number of points
/// adds nothing.
pub fn add_triangle_to_group<V>(group: &mut ObjGroup<V>, pts: Vec<V>)
    requires
        old(group).vertices@.len() + 3 <= usize::MAX,
    ensures
        pts@.len() == 3 ==> {
            &&& final(group).vertices@ == old(group).vertices@ + pts@
            &&& faces_view(final(group).faces@) == faces_view(old(group).faces@).push(
                seq![
                    VertexNormal { v: (old(group).vertices@.len() + 1) as usize, n: 0 },
                    VertexNormal { v: (old(group).vertices@.len() + 2) as usize, n: 0 },
                    VertexNormal { v: (old(group).vertices@.len() + 3) as usize, n: 0 },
                ],
            )
        },
        pts@.len() != 3 ==> final(group).vertices@ == old(group).vertices@ && final(group).faces@
            == old(group).faces@,
        final(group).normals@ == old(group).normals@,
{
    if pts.len() == 3 {
        let vi = group.vertices.len() + 1;
        let ghost vs = group.vertices@;
        let mut pts = pts;
        let ghost ps = pts@;
        let mut rest = pts.split_off(0);
        group.vertices.append(&mut rest);
        assert(group.vertices@ =~= vs + ps);
        let mut face: Vec<VertexNormal> = Vec::new();
        face.push(VertexNormal { v: vi, n: 0 });
        face.push(VertexNormal { v: vi + 1, n: 0 });
        face.push(VertexNormal { v: vi + 2, n: 0 });
        let ghost before = faces_view(group.faces@);
        group.faces.push(face);
        assert(faces_view(group.faces@) =~= before.push(face@));
        assert(face@ =~= seq![
            VertexNormal { v: vi, n: 0 },
            VertexNormal { v: (vi + 1) as usize, n: 0 },
            VertexNormal { v: (vi + 2) as usize, n: 0 },
        ]);
    }
}

// ── Grouping ───────────────────────────────────────────────────────────────

/// Lexicographic order of character sequences by code point — the order of
/// `String`s, since UTF-8 keeps the order of code points.
pub open spec fn seq_less(a: Seq<char>, b: Seq<char>) -> bool
    decreases a.len(),
{
    if a.len() == 0 {
        b.len() > 0
    } else if b.len() == 0 {
        false
    } else if (a[0] as int) < (b[0] as int) {
        true
    } else if (a[0] as int) > (b[0] as int) {
        false
    } else {
        seq_less(a.drop_first(), b.drop_first())
    }
}

pub proof fn lemma_seq_less_irreflexive(a: Seq<char>)
    ensures
        !seq_less(a, a),
    decreases a.len(),
{
    if a.len() > 0 {
        lemma_seq_less_irreflexive(a.drop_first());
    }
}

pub proof fn lemma_seq_less_total(a: Seq<char>, b: Seq<char>)
    ensures
        a == b || seq_less(a, b) || seq_less(b, a),
        !(seq_less(a, b) && seq_less(b, a)),
    decreases a.len(),
{
    if a.len() > 0 && b.len() > 0 && a[0] == b[0] {
        lemma_seq_less_total(a.drop_first(), b.drop_first());
        if a.drop_first() == b.drop_first() {
            assert(a =~= seq![a[0]] + a.drop_first());
            assert(b =~= seq![b[0]] + b.drop_first());
        }
    } else if a.len() == 0 && b.len() == 0 {
        assert(a =~= b);
    } else if a.len() > 0 && b.len() > 0 {
        assert((a[0] as int) != (b[0] as int));
    }
}

pub proof fn lemma_seq_less_transitive(a: Seq<char>, b: Seq<char>, c: Seq<char>)
    requires
        seq_less(a, b),
        seq_less(b, c),
    ensures
        seq_less(a, c),
    decreases a.len(),
{
    if a.len() > 0 && b.len() > 0 && c.len() > 0 && a[0] == b[0] && b[0] == c[0] {
        lemma_seq_less_transitive(a.drop_first(), b.drop_first(), c.drop_first());
    }
}

/// Compare two strings in lexicographic code-point order: `-1`, `0` or `1`.
pub fn compare_strings(a: &String, b: &String) -> (r: i8)
    ensures
        r == 0 <==> a@ == b@,
        r < 0 <==> seq_less(a@, b@),
        r > 0 <==> seq_less(b@, a@),
{
    proof {
        lemma_seq_less_total(a@, b@);
        lemma_seq_less_irreflexive(a@);
    }
    let x = crate::text::chars_of(a.as_str());
    let y = crate::text::chars_of(b.as_str());
    let mut i: usize = 0;
    assert(x@.skip(0) =~= x@);
    assert(y@.skip(0) =~= y@);
    while i < x.len() && i < y.len()
        invariant
            x@ == a@,
            y@ == b@,
            i <= x@.len(),
            i <= y@.len(),
            x@.take(i as int) == y@.take(i as int),
            seq_less(a@, b@) == seq_less(x@.skip(i as int), y@.skip(i as int)),
            seq_less(b@, a@) == seq_less(y@.skip(i as int), x@.skip(i as int)),
        decreases x.len() - i,
    {
        assert(x@.skip(i as int)[0] == x@[i as int]);
        assert(y@.skip(i as int)[0] == y@[i as int]);
        assert(x@.skip(i as int).drop_first() =~= x@.skip(i + 1));
        assert(y@.skip(i as int).drop_first() =~= y@.skip(i + 1));
        let xc = x[i];
        let yc = y[i];
        if xc < yc {
            return -1;
        }
        if xc > yc {
            return 1;
        }
        assert((x@[i as int] as int) == (y@[i as int] as int));
        assert(x@[i as int] == y@[i as int]);
        assert(x@.take(i + 1) =~= x@.take(i as int).push(x@[i as int]));
        assert(y@.take(i + 1) =~= y@.take(i as int).push(y@[i as int]));
        i = i + 1;
    }
    if x.len() == y.len() {
        assert(x@ =~= x@.take(i as int));
        assert(y@ =~= y@.take(i as int));
        0
    } else if x.len() < y.len() {
        -1
    } else {
        1
    }
}

/// The groups are in strictly increasing key order.
pub open spec fn keys_sorted(groups: Seq<(String, Vec<usize>)>) -> bool {
    forall|a: int, b: int|
        0 <= a < b < groups.len() ==> seq_less((#[trigger] groups[a]).0@, (#[trigger] groups[b]).0@)
}

/// The index list is strictly increasing.
pub open spec fn strictly_increasing(s: Seq<usize>) -> bool {
    forall|a: int, b: int| 0 <= a < b < s.len() ==> (#[trigger] s[a]) < (#[trigger] s[b])
}

/// Each group lists, in increasing order, exactly the objects (among the
/// first `n`) whose key is the group's key, and no group is empty.
pub open spec fn groups_partition(groups: Seq<(String, Vec<usize>)>, keys: Seq<String>, n: int) -> bool {
    &&& keys_sorted(groups)
    &&& forall|g: int|
        0 <= g < groups.len() ==> {
            &&& strictly_increasing((#[trigger] groups[g]).1@)
            &&& groups[g].1@.len() > 0
            &&& forall|i: usize| #[trigger]
                groups[g].1@.contains(i) <==> (i < n && keys[i as int]@ == groups[g].0@)
        }
    &&& forall|i: int| 0 <= i < n ==> exists|g: int| 0 <= g < groups.len() && #[trigger] groups[g].0@ == (#[trigger] keys[i])@
}

/// Where a key belongs among sorted groups: after every smaller key, and at
/// the group with the same key if there is one.
fn find_group(groups: &Vec<(String, Vec<usize>)>, k: &String) -> (r: (usize, bool))
    requires
        keys_sorted(groups@),
    ensures
        r.0 <= groups@.len(),
        forall|a: int| 0 <= a < r.0 ==> seq_less((#[trigger] groups@[a]).0@, k@),
        r.1 ==> r.0 < groups@.len() && groups@[r.0 as int].0@ == k@,
        !r.1 ==> r.0 == groups@.len() || seq_less(k@, groups@[r.0 as int].0@),
{
    let mut p: usize = 0;
    while p < groups.len()
        invariant
            p <= groups@.len(),
            forall|a: int| 0 <= a < p ==> seq_less((#[trigger] groups@[a]).0@, k@),
        decreases groups.len() - p,
    {
        let c = compare_strings(&groups[p].0, k);
        if c == 0 {
            return (p, true);
        }
        if c > 0 {
            return (p, false);
        }
        p = p + 1;
    }
    (p, false)
}

/// Keys of sorted groups are distinct.
proof fn lemma_sorted_distinct(groups: Seq<(String, Vec<usize>)>, a: int, b: int)
    requires
        keys_sorted(groups),
        0 <= a < groups.len(),
        0 <= b < groups.len(),
        a != b,
    ensures
        groups[a].0@ != groups[b].0@,
{
    if a < b {
        assert(seq_less(groups[a].0@, groups[b].0@));
        lemma_seq_less_irreflexive(groups[a].0@);
    } else {
        assert(seq_less(groups[b].0@, groups[a].0@));
        lemma_seq_less_irreflexive(groups[b].0@);
    }
}

/// Partition object indices by their group keys, in key order (as a
/// `BTreeMap` keyed by the group name would hold them).
pub fn group_objects(keys: &Vec<String>) -> (groups: Vec<(String, Vec<usize>)>)
    ensures
        groups_partition(groups@, keys@, keys@.len() as int),
{
    let mut groups: Vec<(String, Vec<usize>)> = Vec::new();
    for i in 0..keys.len()
        invariant
            groups_partition(groups@, keys@, i as int),
    {
        let k = &keys[i];
        let (p, found) = find_group(&groups, k);
        let ghost old_groups = groups@;
        if found {
            let (key, list) = groups.remove(p);
            let mut list = list;
            let ghost old_list = list@;
            list.push(i);
            groups.insert(p, (key, list));
            assert(groups@ =~= old_groups.update(p as int, (key, list)));
            assert forall|g: int| 0 <= g < old_groups.len() && g != p implies old_groups[g].0@ != k@ by {
                lemma_sorted_distinct(old_groups, g, p as int);
            }
            assert forall|a: int, b: int|
                0 <= a < b < list@.len() implies (#[trigger] list@[a]) < (#[trigger] list@[b]) by {
                if b == list@.len() - 1 {
                    assert(old_list.contains(list@[a]));
                } else {
                    assert(list@[a] == old_list[a] && list@[b] == old_list[b]);
                }
            }
            assert forall|j: usize| #[trigger] list@.contains(j) <==> (j < i + 1 && keys@[j as int]@ == key@) by {
                if list@.contains(j) && j != i {
                    let m = choose|m: int| 0 <= m < list@.len() && list@[m] == j;
                    assert(old_list[m] == j);
                    assert(old_list.contains(j));
                }
                if j < i + 1 && keys@[j as int]@ == key@ && j != i {
                    assert(old_list.contains(j));
                    let m = choose|m: int| 0 <= m < old_list.len() && old_list[m] == j;
                    assert(list@[m] == j);
                }
                if j == i {
                    assert(list@[list@.len() - 1] == j);
                }
            }
            assert forall|g: int| 0 <= g < groups@.len() && g != p implies #[trigger] groups@[g] == old_groups[g] by {}
        } else {
            let mut list: Vec<usize> = Vec::new();
            list.push(i);
            let entry = (k.clone(), list);
            let ghost entry_g = entry;
            groups.insert(p, entry);
            assert forall|g: int| 0 <= g < old_groups.len() implies old_groups[g].0@ != k@ by {
                if g < p {
                    lemma_seq_less_irreflexive(k@);
                } else {
                    if g > p {
                        assert(seq_less(old_groups[p as int].0@, old_groups[g].0@));
                        lemma_seq_less_transitive(k@, old_groups[p as int].0@, old_groups[g].0@);
                    }
                    lemma_seq_less_irreflexive(k@);
                }
            }
            assert forall|g: int| 0 <= g < groups@.len() implies #[trigger] groups@[g] == if g < p {
                old_groups[g]
            } else if g == p {
                entry_g
            } else {
                old_groups[g - 1]
            } by {}
            assert forall|a: int, b: int|
                0 <= a < b < groups@.len() implies seq_less((#[trigger] groups@[a]).0@, (#[trigger] groups@[b]).0@) by {
                if a < p && b == p {
                } else if a < p && b > p {
                } else if a == p && b > p {
                    if b - 1 > p {
                        assert(seq_less(old_groups[p as int].0@, old_groups[b - 1].0@));
                        lemma_seq_less_transitive(k@, old_groups[p as int].0@, old_groups[b - 1].0@);
                    }
                } else {
                }
            }
            let ghost list = entry_g.1;
            assert(list@ == seq![i]);
            assert forall|j: usize| #[trigger] list@.contains(j) <==> (j < i + 1 && keys@[j as int]@ == k@) by {
                if j < i && keys@[j as int]@ == k@ {
                    let g = choose|g: int| 0 <= g < old_groups.len() && #[trigger] old_groups[g].0@ == (#[trigger] keys@[j as int])@;
                }
                if list@.contains(j) {
                    let m = choose|m: int| 0 <= m < list@.len() && list@[m] == j;
                }
                if j == i {
                    assert(list@[0] == j);
                }
            }
        }
        assert(groups_partition(groups@, keys@, i + 1)) by {
            assert forall|j: int| 0 <= j < i + 1 implies exists|g: int| 0 <= g < groups@.len() && #[trigger] groups@[g].0@ == (#[trigger] keys@[j])@ by {
                if j < i {
                    let g = choose|g: int| 0 <= g < old_groups.len() && #[trigger] old_groups[g].0@ == (#[trigger] keys@[j])@;
                    if found {
                        assert(groups@[g].0@ == old_groups[g].0@);
                    } else if g < p {
                        assert(groups@[g] == old_groups[g]);
                    } else {
                        assert(groups@[g + 1] == old_groups[g]);
                    }
                } else {
                    assert(groups@[p as int].0@ == keys@[j]@);
                }
            }
        }
    }
    groups
}

} // verus!
