use vstd::prelude::*;
use vstd::utf8::encode_utf8;
use crate::position::chars_of;

verus! {

/// The number of columns of the `_atom_site` table.
pub const ATOM_SITE_COLUMNS: usize = 17;

/// The unit cell, each value as it is to be written.
pub struct UnitCell {
    pub a: String,
    pub b: String,
    pub c: String,
    pub alpha: String,
    pub beta: String,
    pub gamma: String,
}

/// The space group: the number of molecules in the cell, its Hermann-Mauguin symbol and
/// its index in the International Tables, each as it is to be written.
pub struct Symmetry {
    pub z: String,
    pub symbol: String,
    pub index: String,
}

/// What the mmCIF writer puts out of a structure, every value already written as text: the
/// unit cell and the symmetry where known, and one row of `_atom_site` cells per atom.
pub struct StructureText {
    pub unit_cell: Option<UnitCell>,
    pub symmetry: Option<Symmetry>,
    pub atoms: Vec<Vec<String>>,
}

pub open spec fn rows_view(rows: Seq<Vec<String>>) -> Seq<Seq<Seq<char>>> {
    rows.map_values(|r: Vec<String>| r@.map_values(|c: String| c@))
}

pub open spec fn spaces(n: int) -> Seq<char> {
    Seq::new(if n > 0 {
        n as nat
    } else {
        0
    }, |i: int| ' ')
}

/// The length of a cell in bytes of UTF-8, as `str::len` counts it.
pub open spec fn byte_len(c: Seq<char>) -> int {
    (encode_utf8(c).len() as usize) as int
}

/// Whitespace in the sense of `char::is_whitespace`: Unicode's White_Space property.
pub open spec fn is_white_space(c: char) -> bool {
    ||| '\t' <= c && c <= '\r'
    ||| c == ' ' || c == '\u{85}' || c == '\u{A0}' || c == '\u{1680}'
    ||| '\u{2000}' <= c && c <= '\u{200A}'
    ||| c == '\u{2028}' || c == '\u{2029}' || c == '\u{202F}' || c == '\u{205F}' || c == '\u{3000}'
}

/// A cell that trimming leaves empty: nothing but whitespace. It is written as `?`.
pub open spec fn blank_cell(c: Seq<char>) -> bool {
    forall|i: int| 0 <= i < c.len() ==> is_white_space(#[trigger] c[i])
}

/// The width of column `c` in bytes: its longest cell, and at least 1.
pub open spec fn column_width(rows: Seq<Seq<Seq<char>>>, c: int) -> int
    decreases rows.len(),
{
    if rows.len() == 0 {
        1
    } else {
        vstd::math::max(column_width(rows.drop_last(), c), byte_len(rows.last()[c]))
    }
}

/// A cell after the first: a space, then the cell (or `?` for a blank one) padded to `w`.
pub open spec fn field_text(cell: Seq<char>, w: int) -> Seq<char> {
    if blank_cell(cell) {
        seq![' ', '?'] + spaces(w - 1)
    } else {
        seq![' '] + cell + spaces(w - byte_len(cell))
    }
}

/// Columns 1 up to `n` of a row.
pub open spec fn fields_text(row: Seq<Seq<char>>, widths: Seq<int>, n: int) -> Seq<char>
    decreases n,
{
    if n <= 1 {
        seq![]
    } else {
        fields_text(row, widths, n - 1) + field_text(row[n - 1], widths[n - 1])
    }
}

pub open spec fn row_text(row: Seq<Seq<char>>, widths: Seq<int>) -> Seq<char> {
    row[0] + spaces(widths[0] - byte_len(row[0])) + fields_text(row, widths, row.len() as int)
        + seq!['\n']
}

pub open spec fn table_text(rows: Seq<Seq<Seq<char>>>, widths: Seq<int>) -> Seq<char>
    decreases rows.len(),
{
    if rows.len() == 0 {
        seq![]
    } else {
        table_text(rows.drop_last(), widths) + row_text(rows.last(), widths)
    }
}

pub open spec fn widths_of(rows: Seq<Seq<Seq<char>>>) -> Seq<int> {
    Seq::new(ATOM_SITE_COLUMNS as nat, |c: int| column_width(rows, c))
}

pub open spec fn header_text(name: Seq<char>) -> Seq<char> {
    "data_"@ + name + "\n# \n_entry.id   "@ + name
        + " \n# \n_audit_conform.dict_name       mmcif_pdbx.dic \n_audit_conform.dict_version    5.279 \n_audit_conform.dict_location   http://mmcif.pdb.org/dictionaries/ascii/mmcif_pdbx.dic\n"@
}

pub open spec fn cell_text(name: Seq<char>, u: UnitCell, z: Seq<char>) -> Seq<char> {
    "# \n_cell.entry_id           "@ + name + "\n_cell.length_a           "@ + u.a@
        + " \n_cell.length_b           "@ + u.b@ + " \n_cell.length_c           "@ + u.c@
        + " \n_cell.angle_alpha        "@ + u.alpha@ + "\n_cell.angle_beta         "@ + u.beta@
        + "\n_cell.angle_gamma        "@ + u.gamma@ + "\n_cell.Z_PDB              "@ + z
        + " \n_cell.pdbx_unique_axis   ?\n_cell.length_a_esd       ?\n_cell.length_b_esd       ?\n_cell.length_c_esd       ?\n_cell.angle_alpha_esd    ?\n_cell.angle_beta_esd     ?\n_cell.angle_gamma_esd    ?\n"@
}

pub open spec fn symmetry_text(name: Seq<char>, s: Symmetry) -> Seq<char> {
    "# \n_symmetry.entry_id                         "@ + name
        + " \n_symmetry.space_group_name_H-M             '"@ + s.symbol@
        + "' \n_symmetry.pdbx_full_space_group_name_H-M   ? \n_symmetry.cell_setting                     ? \n_symmetry.Int_Tables_number                "@
        + s.index@ + " \n_symmetry.space_group_name_Hall            ? \n"@
}

pub open spec fn atom_site_header() -> Seq<char> {
    "# \nloop_\n_atom_site.group_PDB \n_atom_site.id \n_atom_site.type_symbol \n_atom_site.label_atom_id \n_atom_site.label_alt_id \n_atom_site.label_comp_id \n_atom_site.label_asym_id \n_atom_site.label_entity_id \n_atom_site.label_seq_id \n_atom_site.pdbx_PDB_ins_code \n_atom_site.Cartn_x \n_atom_site.Cartn_y \n_atom_site.Cartn_z \n_atom_site.occupancy \n_atom_site.B_iso_or_equiv \n_atom_site.pdbx_formal_charge \n_atom_site.pdbx_PDB_model_num\n"@
}

/// The mmCIF document for a structure: the header, the unit cell and the symmetry where
/// known, and the `_atom_site` table with its columns aligned.
pub open spec fn mmcif_text(pdb: StructureText, name: Seq<char>) -> Seq<char> {
    let rows = rows_view(pdb.atoms@);
    header_text(name) + match pdb.unit_cell {
        Some(u) => cell_text(
            name,
            u,
            match pdb.symmetry {
                Some(s) => s.z@,
                None => "?"@,
            },
        ),
        None => seq![],
    } + match pdb.symmetry {
        Some(s) => symmetry_text(name, s),
        None => seq![],
    } + atom_site_header() + table_text(rows, widths_of(rows)) + "#\n"@
}

fn append_spaces(out: &mut String, n: usize)
    ensures
        final(out)@ == old(out)@ + spaces(n as int),
{
    let mut i: usize = 0;
    while i < n
        invariant
            i <= n,
            out@ == old(out)@ + spaces(i as int),
        decreases n - i,
    {
        out.append(" ");
        proof {
            reveal_strlit(" ");
        }
        i += 1;
        assert(out@ =~= old(out)@ + spaces(i as int));
    }
}

fn is_blank_cell(cell: &String) -> (r: bool)
    ensures
        r == blank_cell(cell@),
{
    let cs = chars_of(cell.as_str());
    let mut i: usize = 0;
    while i < cs.len()
        invariant
            cs@ == cell@,
            i <= cs@.len(),
            forall|j: int| 0 <= j < i ==> is_white_space(#[trigger] cs@[j]),
        decreases cs@.len() - i,
    {
        let c = cs[i];
        let space = ('\t' <= c && c <= '\r') || c == ' ' || c == '\u{85}' || c == '\u{A0}' || c
            == '\u{1680}' || ('\u{2000}' <= c && c <= '\u{200A}') || c == '\u{2028}' || c
            == '\u{2029}' || c == '\u{202F}' || c == '\u{205F}' || c == '\u{3000}';
        if !space {
            return false;
        }
        i += 1;
    }
    true
}

fn column_widths(rows: &Vec<Vec<String>>) -> (r: Vec<usize>)
    requires
        forall|i: int| 0 <= i < rows@.len() ==> #[trigger] rows@[i]@.len() == ATOM_SITE_COLUMNS,
    ensures
        r@.len() == ATOM_SITE_COLUMNS,
        forall|c: int| 0 <= c < ATOM_SITE_COLUMNS ==> r@[c] == column_width(rows_view(rows@), c),
        forall|c: int| 0 <= c < ATOM_SITE_COLUMNS ==> r@[c] >= 1,
{
    let ghost rv = rows_view(rows@);
    let mut widths: Vec<usize> = Vec::new();
    let mut c: usize = 0;
    while c < ATOM_SITE_COLUMNS
        invariant
            c <= ATOM_SITE_COLUMNS,
            rv == rows_view(rows@),
            forall|i: int| 0 <= i < rows@.len() ==> #[trigger] rows@[i]@.len() == ATOM_SITE_COLUMNS,
            widths@.len() == c,
            forall|k: int| 0 <= k < c ==> widths@[k] == column_width(rv, k),
            forall|k: int| 0 <= k < c ==> widths@[k] >= 1,
        decreases ATOM_SITE_COLUMNS - c,
    {
        let mut w: usize = 1;
        let mut r: usize = 0;
        while r < rows.len()
            invariant
                c < ATOM_SITE_COLUMNS,
                r <= rows@.len(),
                rv == rows_view(rows@),
                forall|i: int| 0 <= i < rows@.len() ==> #[trigger] rows@[i]@.len()
                    == ATOM_SITE_COLUMNS,
                w == column_width(rv.take(r as int), c as int),
                w >= 1,
            decreases rows@.len() - r,
        {
            let n = rows[r][c].as_str().len();
            assert(rv.take(r + 1).drop_last() =~= rv.take(r as int));
            assert(rv[r as int][c as int] == rows@[r as int]@[c as int]@);
            if n > w {
                w = n;
            }
            r += 1;
        }
        assert(rv.take(rows@.len() as int) =~= rv);
        widths.push(w);
        c += 1;
    }
    widths
}

pub open spec fn widths_int(ws: Seq<usize>) -> Seq<int> {
    ws.map_values(|w: usize| w as int)
}

fn push_header(out: &mut String, name: &str)
    ensures
        final(out)@ == old(out)@ + header_text(name@),
{
    out.append("data_");
    out.append(name);
    out.append("\n# \n_entry.id   ");
    out.append(name);
    out.append(
        " \n# \n_audit_conform.dict_name       mmcif_pdbx.dic \n_audit_conform.dict_version    5.279 \n_audit_conform.dict_location   http://mmcif.pdb.org/dictionaries/ascii/mmcif_pdbx.dic\n",
    );
    assert(out@ =~= old(out)@ + header_text(name@));
}

fn push_cell(out: &mut String, name: &str, u: &UnitCell, z: &str)
    ensures
        final(out)@ == old(out)@ + cell_text(name@, *u, z@),
{
    out.append("# \n_cell.entry_id           ");
    out.append(name);
    out.append("\n_cell.length_a           ");
    out.append(u.a.as_str());
    out.append(" \n_cell.length_b           ");
    out.append(u.b.as_str());
    out.append(" \n_cell.length_c           ");
    out.append(u.c.as_str());
    out.append(" \n_cell.angle_alpha        ");
    out.append(u.alpha.as_str());
    out.append("\n_cell.angle_beta         ");
    out.append(u.beta.as_str());
    out.append("\n_cell.angle_gamma        ");
    out.append(u.gamma.as_str());
    out.append("\n_cell.Z_PDB              ");
    out.append(z);
    out.append(
        " \n_cell.pdbx_unique_axis   ?\n_cell.length_a_esd       ?\n_cell.length_b_esd       ?\n_cell.length_c_esd       ?\n_cell.angle_alpha_esd    ?\n_cell.angle_beta_esd     ?\n_cell.angle_gamma_esd    ?\n",
    );
    assert(out@ =~= old(out)@ + cell_text(name@, *u, z@));
}

fn push_symmetry(out: &mut String, name: &str, s: &Symmetry)
    ensures
        final(out)@ == old(out)@ + symmetry_text(name@, *s),
{
    out.append("# \n_symmetry.entry_id                         ");
    out.append(name);
    out.append(" \n_symmetry.space_group_name_H-M             '");
    out.append(s.symbol.as_str());
    out.append(
        "' \n_symmetry.pdbx_full_space_group_name_H-M   ? \n_symmetry.cell_setting                     ? \n_symmetry.Int_Tables_number                ",
    );
    out.append(s.index.as_str());
    out.append(" \n_symmetry.space_group_name_Hall            ? \n");
    assert(out@ =~= old(out)@ + symmetry_text(name@, *s));
}

fn push_row(out: &mut String, row: &Vec<String>, widths: &Vec<usize>)
    requires
        row@.len() == ATOM_SITE_COLUMNS,
        widths@.len() == ATOM_SITE_COLUMNS,
        forall|k: int| 0 <= k < ATOM_SITE_COLUMNS ==> widths@[k] >= 1,
    ensures
        final(out)@ == old(out)@ + row_text(row@.map_values(|x: String| x@), widths_int(widths@)),
{
    let ghost row_v = row@.map_values(|x: String| x@);
    let ghost ws = widths_int(widths@);
    out.append(row[0].as_str());
    let n0 = row[0].as_str().len();
    append_spaces(out, if widths[0] > n0 { widths[0] - n0 } else { 0 });
    let mut c: usize = 1;
    while c < ATOM_SITE_COLUMNS
        invariant
            1 <= c <= ATOM_SITE_COLUMNS,
            row@.len() == ATOM_SITE_COLUMNS,
            row_v == row@.map_values(|x: String| x@),
            widths@.len() == ATOM_SITE_COLUMNS,
            ws == widths_int(widths@),
            forall|k: int| 0 <= k < ATOM_SITE_COLUMNS ==> widths@[k] >= 1,
            out@ == old(out)@ + row_v[0] + spaces(ws[0] - byte_len(row_v[0])) + fields_text(
                row_v,
                ws,
                c as int,
            ),
        decreases ATOM_SITE_COLUMNS - c,
    {
        let ghost before_field = out@;
        let cell = &row[c];
        let n = cell.as_str().len();
        let w = widths[c];
        if is_blank_cell(cell) {
            out.append(" ?");
            append_spaces(out, w - 1);
            proof {
                reveal_strlit(" ?");
            }
        } else {
            out.append(" ");
            out.append(cell.as_str());
            append_spaces(out, if w > n { w - n } else { 0 });
            proof {
                reveal_strlit(" ");
            }
        }
        assert(out@ =~= before_field + field_text(row_v[c as int], ws[c as int]));
        c += 1;
    }
    out.append("\n");
    proof {
        reveal_strlit("\n");
    }
    assert(out@ =~= old(out)@ + row_text(row_v, ws));
}

fn push_table(out: &mut String, rows: &Vec<Vec<String>>)
    requires
        forall|i: int| 0 <= i < rows@.len() ==> #[trigger] rows@[i]@.len() == ATOM_SITE_COLUMNS,
    ensures
        final(out)@ == old(out)@ + table_text(rows_view(rows@), widths_of(rows_view(rows@))),
{
    let ghost rv = rows_view(rows@);
    let widths = column_widths(rows);
    let ghost ws = widths_of(rv);
    assert(widths_int(widths@) =~= ws);
    let mut r: usize = 0;
    while r < rows.len()
        invariant
            r <= rows@.len(),
            rv == rows_view(rows@),
            ws == widths_of(rv),
            widths@.len() == ATOM_SITE_COLUMNS,
            widths_int(widths@) == ws,
            forall|c: int| 0 <= c < ATOM_SITE_COLUMNS ==> widths@[c] >= 1,
            forall|i: int| 0 <= i < rows@.len() ==> #[trigger] rows@[i]@.len() == ATOM_SITE_COLUMNS,
            out@ == old(out)@ + table_text(rv.take(r as int), ws),
        decreases rows@.len() - r,
    {
        push_row(out, &rows[r], &widths);
        proof {
            assert(rv.take(r + 1).drop_last() =~= rv.take(r as int));
            assert(rv[r as int] == rows@[r as int]@.map_values(|x: String| x@));
        }
        r += 1;
        assert(out@ =~= old(out)@ + table_text(rv.take(r as int), ws));
    }
    assert(rv.take(rows@.len() as int) =~= rv);
}

/// Writes the mmCIF document of a structure, named `name`, as one string; nothing is
/// validated or renumbered.
pub fn save_mmcif_raw(pdb: &StructureText, name: &str) -> (r: String)
    requires
        forall|i: int| 0 <= i < pdb.atoms@.len() ==> #[trigger] pdb.atoms@[i]@.len()
            == ATOM_SITE_COLUMNS,
    ensures
        r@ == mmcif_text(*pdb, name@),
{
    let mut out = String::new();
    push_header(&mut out, name);
    match &pdb.unit_cell {
        Some(u) => match &pdb.symmetry {
            Some(s) => push_cell(&mut out, name, u, s.z.as_str()),
            None => push_cell(&mut out, name, u, "?"),
        },
        None => {},
    }
    match &pdb.symmetry {
        Some(s) => push_symmetry(&mut out, name, s),
        None => {},
    }
    out.append(
        "# \nloop_\n_atom_site.group_PDB \n_atom_site.id \n_atom_site.type_symbol \n_atom_site.label_atom_id \n_atom_site.label_alt_id \n_atom_site.label_comp_id \n_atom_site.label_asym_id \n_atom_site.label_entity_id \n_atom_site.label_seq_id \n_atom_site.pdbx_PDB_ins_code \n_atom_site.Cartn_x \n_atom_site.Cartn_y \n_atom_site.Cartn_z \n_atom_site.occupancy \n_atom_site.B_iso_or_equiv \n_atom_site.pdbx_formal_charge \n_atom_site.pdbx_PDB_model_num\n",
    );
    push_table(&mut out, &pdb.atoms);
    out.append("#\n");
    assert(out@ =~= mmcif_text(*pdb, name@));
    out
}

} // verus!
