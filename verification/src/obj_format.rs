//! The text of the OBJ and MTL files: decimal vertex indices, face records
//! (`p` for a point, `l` for a line, `f` for a polygon) with indices made
//! global across groups, and one material per group. Coordinates and colour
//! components arrive already written out as text.

use vstd::prelude::*;

use crate::color::{hex_char, HEX_DIGITS};
use crate::obj::{ObjGroup, VertexNormal};

verus! {

/// `n` in decimal, without leading zeros.
pub open spec fn decimal_text(n: nat) -> Seq<char>
    decreases n,
{
    if n < 10 {
        seq![hex_char(n as int)]
    } else {
        decimal_text(n / 10) + seq![hex_char((n % 10) as int)]
    }
}

/// Append `n` in decimal.
pub fn push_decimal(out: &mut String, n: usize)
    ensures
        final(out)@ == old(out)@ + decimal_text(n as nat),
    decreases n,
{
    proof {
        crate::color::lemma_hex_digits();
    }
    if n >= 10 {
        push_decimal(out, n / 10);
    }
    let digits = HEX_DIGITS;
    out.append(digits[n % 10]);
    assert(final(out)@ =~= old(out)@ + decimal_text(n as nat));
}

// ── Face records ───────────────────────────────────────────────────────────

/// The record letter of a face with `len` vertices.
pub open spec fn face_prefix(len: nat) -> Seq<char> {
    if len == 1 {
        "p"@
    } else if len == 2 {
        "l"@
    } else {
        "f"@
    }
}

/// One vertex reference of a face record, with the group's offsets added:
/// ` v` without a normal, ` v//n` with one.
pub open spec fn ref_text(r: VertexNormal, v_off: nat, n_off: nat) -> Seq<char> {
    if r.n == 0 {
        " "@ + decimal_text((r.v + v_off) as nat)
    } else {
        " "@ + decimal_text((r.v + v_off) as nat) + "//"@ + decimal_text((r.n + n_off) as nat)
    }
}

/// The references of the first `k` vertices of a face.
pub open spec fn refs_text(f: Seq<VertexNormal>, v_off: nat, n_off: nat, k: int) -> Seq<char>
    decreases k,
{
    if k <= 0 {
        seq![]
    } else {
        refs_text(f, v_off, n_off, k - 1) + ref_text(f[k - 1], v_off, n_off)
    }
}

/// The record line of a face.
pub open spec fn face_text(f: Seq<VertexNormal>, v_off: nat, n_off: nat) -> Seq<char> {
    face_prefix(f.len()) + refs_text(f, v_off, n_off, f.len() as int) + "\n"@
}

/// The record lines of the first `k` faces.
pub open spec fn faces_text(fs: Seq<Seq<VertexNormal>>, v_off: nat, n_off: nat, k: int) -> Seq<char>
    decreases k,
{
    if k <= 0 {
        seq![]
    } else {
        faces_text(fs, v_off, n_off, k - 1) + face_text(fs[k - 1], v_off, n_off)
    }
}

/// The lines `prefix item` for the first `k` items.
pub open spec fn item_lines(prefix: Seq<char>, items: Seq<Seq<char>>, k: int) -> Seq<char>
    decreases k,
{
    if k <= 0 {
        seq![]
    } else {
        item_lines(prefix, items, k - 1) + prefix + items[k - 1] + "\n"@
    }
}

/// A group whose vertices and normals are written out as `x y z` text.
pub struct GroupText {
    pub vertices: Seq<Seq<char>>,
    pub normals: Seq<Seq<char>>,
    pub faces: Seq<Seq<VertexNormal>>,
}

pub open spec fn group_view(g: ObjGroup<String>) -> GroupText {
    GroupText {
        vertices: g.vertices@.map_values(|s: String| s@),
        normals: g.normals@.map_values(|s: String| s@),
        faces: g.faces@.map_values(|f: Vec<VertexNormal>| f@),
    }
}

pub open spec fn groups_view(groups: Seq<(String, ObjGroup<String>)>) -> Seq<(Seq<char>, GroupText)> {
    groups.map_values(|e: (String, ObjGroup<String>)| (e.0@, group_view(e.1)))
}

/// The block of one group: its name, its material, its vertices, normals and
/// faces, and a blank line.
pub open spec fn group_text(name: Seq<char>, g: GroupText, v_off: nat, n_off: nat) -> Seq<char> {
    "g "@ + name + "\n"@ + "usemtl "@ + name + "\n"@ + item_lines("v "@, g.vertices, g.vertices.len() as int)
        + item_lines("vn "@, g.normals, g.normals.len() as int) + faces_text(
        g.faces,
        v_off,
        n_off,
        g.faces.len() as int,
    ) + "\n"@
}

/// The number of vertices in the first `k` groups.
pub open spec fn vertex_offset(groups: Seq<(Seq<char>, GroupText)>, k: int) -> nat
    decreases k,
{
    if k <= 0 {
        0
    } else {
        vertex_offset(groups, k - 1) + groups[k - 1].1.vertices.len()
    }
}

/// The number of normals in the first `k` groups.
pub open spec fn normal_offset(groups: Seq<(Seq<char>, GroupText)>, k: int) -> nat
    decreases k,
{
    if k <= 0 {
        0
    } else {
        normal_offset(groups, k - 1) + groups[k - 1].1.normals.len()
    }
}

/// The blocks of the first `k` groups, each numbering its vertices after
/// those of the groups before it.
pub open spec fn groups_text(groups: Seq<(Seq<char>, GroupText)>, k: int) -> Seq<char>
    decreases k,
{
    if k <= 0 {
        seq![]
    } else {
        groups_text(groups, k - 1) + group_text(
            groups[k - 1].0,
            groups[k - 1].1,
            vertex_offset(groups, k - 1),
            normal_offset(groups, k - 1),
        )
    }
}

/// The OBJ file: a header naming the material library, then every group.
pub open spec fn obj_text(mtl_name: Seq<char>, groups: Seq<(Seq<char>, GroupText)>) -> Seq<char> {
    "# RustSynth OBJ export\n"@ + "mtllib "@ + mtl_name + "\n"@ + "\n"@ + groups_text(
        groups,
        groups.len() as int,
    )
}

/// Every global index fits in a `usize`.
pub open spec fn indices_fit(groups: Seq<(Seq<char>, GroupText)>) -> bool {
    &&& vertex_offset(groups, groups.len() as int) <= usize::MAX
    &&& normal_offset(groups, groups.len() as int) <= usize::MAX
    &&& forall|g: int, f: int, j: int|
        0 <= g < groups.len() && 0 <= f < groups[g].1.faces.len() && 0 <= j
            < groups[g].1.faces[f].len() ==> {
            &&& (#[trigger] groups[g].1.faces[f][j]).v + vertex_offset(groups, g) <= usize::MAX
            &&& groups[g].1.faces[f][j].n + normal_offset(groups, g) <= usize::MAX
        }
}

proof fn lemma_offsets_monotone(groups: Seq<(Seq<char>, GroupText)>, a: int, b: int)
    requires
        0 <= a <= b <= groups.len(),
    ensures
        vertex_offset(groups, a) <= vertex_offset(groups, b),
        normal_offset(groups, a) <= normal_offset(groups, b),
    decreases b - a,
{
    if a < b {
        lemma_offsets_monotone(groups, a, b - 1);
    }
}

fn push_face(out: &mut String, face: &Vec<VertexNormal>, v_off: usize, n_off: usize)
    requires
        forall|j: int|
            0 <= j < face@.len() ==> (#[trigger] face@[j]).v + v_off <= usize::MAX && face@[j].n
                + n_off <= usize::MAX,
    ensures
        final(out)@ == old(out)@ + face_text(face@, v_off as nat, n_off as nat),
{
    let ghost start = out@;
    if face.len() == 1 {
        out.append("p");
    } else if face.len() == 2 {
        out.append("l");
    } else {
        out.append("f");
    }
    for j in 0..face.len()
        invariant
            forall|j: int|
                0 <= j < face@.len() ==> (#[trigger] face@[j]).v + v_off <= usize::MAX && face@[j].n
                    + n_off <= usize::MAX,
            out@ == start + face_prefix(face@.len()) + refs_text(
                face@,
                v_off as nat,
                n_off as nat,
                j as int,
            ),
    {
        let r = face[j];
        out.append(" ");
        push_decimal(out, r.v + v_off);
        if r.n != 0 {
            out.append("//");
            push_decimal(out, r.n + n_off);
        }
        assert(out@ =~= start + face_prefix(face@.len()) + refs_text(
            face@,
            v_off as nat,
            n_off as nat,
            j + 1,
        ));
    }
    out.append("\n");
    assert(out@ =~= start + face_text(face@, v_off as nat, n_off as nat));
}

fn push_items(out: &mut String, prefix: &str, items: &Vec<String>)
    ensures
        final(out)@ == old(out)@ + item_lines(
            prefix@,
            items@.map_values(|s: String| s@),
            items@.len() as int,
        ),
{
    let ghost start = out@;
    let ghost iv = items@.map_values(|s: String| s@);
    for i in 0..items.len()
        invariant
            iv == items@.map_values(|s: String| s@),
            out@ == start + item_lines(prefix@, iv, i as int),
    {
        out.append(prefix);
        out.append(items[i].as_str());
        out.append("\n");
        assert(iv[i as int] == items@[i as int]@);
        assert(out@ =~= start + item_lines(prefix@, iv, i + 1));
    }
}

/// Every reference of the group's faces, with the offsets added, fits in a
/// `usize`.
pub open spec fn group_fits(g: GroupText, v_off: nat, n_off: nat) -> bool {
    forall|f: int, j: int|
        0 <= f < g.faces.len() && 0 <= j < g.faces[f].len() ==> {
            &&& (#[trigger] g.faces[f][j]).v + v_off <= usize::MAX
            &&& g.faces[f][j].n + n_off <= usize::MAX
        }
}

fn push_group(out: &mut String, name: &String, g: &ObjGroup<String>, v_offset: usize, n_offset: usize)
    requires
        group_fits(group_view(*g), v_offset as nat, n_offset as nat),
    ensures
        final(out)@ == old(out)@ + group_text(name@, group_view(*g), v_offset as nat, n_offset as nat),
{
    let ghost gt = group_view(*g);
    let ghost before = out@;
    out.append("g ");
    out.append(name.as_str());
    out.append("\n");
    out.append("usemtl ");
    out.append(name.as_str());
    out.append("\n");
    push_items(out, "v ", &g.vertices);
    push_items(out, "vn ", &g.normals);
    let ghost faces_start = out@;
    for k in 0..g.faces.len()
        invariant
            gt == group_view(*g),
            group_fits(gt, v_offset as nat, n_offset as nat),
            out@ == faces_start + faces_text(gt.faces, v_offset as nat, n_offset as nat, k as int),
    {
        assert(gt.faces[k as int] == g.faces@[k as int]@);
        assert forall|j: int| 0 <= j < g.faces@[k as int]@.len() implies (
        #[trigger] g.faces@[k as int]@[j]).v + v_offset <= usize::MAX && g.faces@[k as int]@[j].n
            + n_offset <= usize::MAX by {
            assert(gt.faces[k as int][j] == g.faces@[k as int]@[j]);
        }
        push_face(out, &g.faces[k], v_offset, n_offset);
    }
    out.append("\n");
    assert(out@ =~= before + group_text(name@, gt, v_offset as nat, n_offset as nat));
}

/// Write the OBJ file for the given groups, in order.
pub fn serialize_obj(mtl_name: &str, groups: &Vec<(String, ObjGroup<String>)>) -> (s: String)
    requires
        indices_fit(groups_view(groups@)),
    ensures
        s@ == obj_text(mtl_name@, groups_view(groups@)),
{
    let ghost gv = groups_view(groups@);
    let mut s = String::new();
    s.append("# RustSynth OBJ export\n");
    s.append("mtllib ");
    s.append(mtl_name);
    s.append("\n");
    s.append("\n");
    let ghost header = s@;
    let mut v_offset: usize = 0;
    let mut n_offset: usize = 0;
    for i in 0..groups.len()
        invariant
            gv == groups_view(groups@),
            indices_fit(gv),
            gv.len() == groups@.len(),
            v_offset == vertex_offset(gv, i as int),
            n_offset == normal_offset(gv, i as int),
            s@ == header + groups_text(gv, i as int),
    {
        let name = &groups[i].0;
        let g = &groups[i].1;
        assert(gv[i as int].1 == group_view(*g));
        assert(gv[i as int].0 == name@);
        assert(group_fits(gv[i as int].1, v_offset as nat, n_offset as nat)) by {
            assert forall|f: int, j: int|
                0 <= f < gv[i as int].1.faces.len() && 0 <= j < gv[i as int].1.faces[f].len() implies {
                &&& (#[trigger] gv[i as int].1.faces[f][j]).v + v_offset <= usize::MAX
                &&& gv[i as int].1.faces[f][j].n + n_offset <= usize::MAX
            } by {
                assert(gv[i as int].1.faces[f][j] == gv[i as int].1.faces[f][j]);
            }
        }
        push_group(&mut s, name, g, v_offset, n_offset);
        proof {
            lemma_offsets_monotone(gv, i + 1, gv.len() as int);
        }
        v_offset = v_offset + g.vertices.len();
        n_offset = n_offset + g.normals.len();
    }
    s
}

// ── Materials ──────────────────────────────────────────────────────────────

/// The material of one group: its name, its diffuse colour as `r g b` text,
/// and its opacity as text when the group is not fully opaque.
#[derive(Debug)]
pub struct MaterialText {
    pub name: String,
    pub diffuse: String,
    pub dissolve: Option<String>,
}

/// The block of one material.
pub open spec fn material_text(m: MaterialText) -> Seq<char> {
    "newmtl "@ + m.name@ + "\n"@ + "Kd "@ + m.diffuse@ + "\n"@ + match m.dissolve {
        Some(d) => "d "@ + d@ + "\n"@,
        None => seq![],
    } + "\n"@
}

/// The blocks of the first `k` materials.
pub open spec fn materials_text(ms: Seq<MaterialText>, k: int) -> Seq<char>
    decreases k,
{
    if k <= 0 {
        seq![]
    } else {
        materials_text(ms, k - 1) + material_text(ms[k - 1])
    }
}

/// Write the MTL file: a header, then one material per group, in order.
pub fn serialize_mtl(materials: &Vec<MaterialText>) -> (s: String)
    ensures
        s@ == "# RustSynth MTL export\n"@ + materials_text(materials@, materials@.len() as int),
{
    let mut s = String::new();
    s.append("# RustSynth MTL export\n");
    let ghost header = s@;
    for i in 0..materials.len()
        invariant
            s@ == header + materials_text(materials@, i as int),
    {
        let m = &materials[i];
        let ghost before = s@;
        s.append("newmtl ");
        s.append(m.name.as_str());
        s.append("\n");
        s.append("Kd ");
        s.append(m.diffuse.as_str());
        s.append("\n");
        match &m.dissolve {
            Some(d) => {
                s.append("d ");
                s.append(d.as_str());
                s.append("\n");
            },
            None => {},
        }
        s.append("\n");
        assert(s@ =~= before + material_text(materials@[i as int]));
    }
    s
}

} // verus!
