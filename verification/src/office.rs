//! Word and Excel editing through inline Python scripts: which script an
//! action runs, and how its output becomes the action's result. Running
//! the interpreter is the caller's.

use vstd::prelude::*;
use crate::server::{contains_spec, ends, py_literal, python_str_lit};
use crate::text::{chars_of, decimal, decimal_spec, ends_with, find, push_str, str_eq, string_of, to_string, trim, trim_spec};

verus! {

/// The parameters of an office action, as plain values: the string ones
/// are empty when absent, `cell` is `None` when absent, `value_json` is the
/// JSON text of `value` (`[]` when absent), `index` is 0 when absent.
pub struct OfficeParams {
    pub sheet: String,
    pub cell: Option<String>,
    pub value: String,
    pub value_json: String,
    pub find: String,
    pub replace: String,
    pub text: String,
    pub index: u64,
}

/// A script to run, whether its output is trimmed, and whether an output
/// holding `ERROR` is a failure.
pub struct PythonRun {
    pub script: String,
    pub trim_output: bool,
    pub error_marker: bool,
}

pub open spec fn run_view(r: PythonRun) -> (Seq<char>, bool, bool) {
    (r.script@, r.trim_output, r.error_marker)
}

pub open spec fn plan_view(r: Result<PythonRun, String>) -> Result<(Seq<char>, bool, bool), Seq<char>> {
    match r {
        Ok(x) => Ok(run_view(x)),
        Err(e) => Err(e@),
    }
}

pub open spec fn word_read_spec(p: Seq<char>) -> Seq<char> {
    "from docx import Document\nd = Document("@ + p + ")\nfor i, para in enumerate(d.paragraphs):\n    print(f'[{i}] {para.style.name}: {para.text}')\n"@
}

fn word_read_script(p: &str) -> (r: String)
    ensures
        r@ == word_read_spec(p@),
{
    let mut out = chars_of("from docx import Document\nd = Document(");
    push_str(&mut out, p);
    push_str(&mut out, ")\nfor i, para in enumerate(d.paragraphs):\n    print(f'[{i}] {para.style.name}: {para.text}')\n");
    string_of(&out)
}

pub open spec fn word_append_spec(p: Seq<char>, t: Seq<char>) -> Seq<char> {
    "from docx import Document\nd = Document("@ + p + ")\nd.add_paragraph("@ + t + ")\nd.save("@ + p + ")\nprint('Appended paragraph')\n"@
}

fn word_append_script(p: &str, t: &str) -> (r: String)
    ensures
        r@ == word_append_spec(p@, t@),
{
    let mut out = chars_of("from docx import Document\nd = Document(");
    push_str(&mut out, p);
    push_str(&mut out, ")\nd.add_paragraph(");
    push_str(&mut out, t);
    push_str(&mut out, ")\nd.save(");
    push_str(&mut out, p);
    push_str(&mut out, ")\nprint('Appended paragraph')\n");
    string_of(&out)
}

pub open spec fn word_set_paragraph_spec(p: Seq<char>, idx: Seq<char>, t: Seq<char>) -> Seq<char> {
    "from docx import Document\nd = Document("@ + p + ")\nif "@ + idx + " < len(d.paragraphs):\n    d.paragraphs["@ + idx + "].text = "@ + t + "\n    d.save("@ + p + ")\n    print('Updated paragraph "@ + idx + "')\nelse:\n    print('ERROR: index out of range')\n"@
}

fn word_set_paragraph_script(p: &str, idx: &str, t: &str) -> (r: String)
    ensures
        r@ == word_set_paragraph_spec(p@, idx@, t@),
{
    let mut out = chars_of("from docx import Document\nd = Document(");
    push_str(&mut out, p);
    push_str(&mut out, ")\nif ");
    push_str(&mut out, idx);
    push_str(&mut out, " < len(d.paragraphs):\n    d.paragraphs[");
    push_str(&mut out, idx);
    push_str(&mut out, "].text = ");
    push_str(&mut out, t);
    push_str(&mut out, "\n    d.save(");
    push_str(&mut out, p);
    push_str(&mut out, ")\n    print('Updated paragraph ");
    push_str(&mut out, idx);
    push_str(&mut out, "')\nelse:\n    print('ERROR: index out of range')\n");
    string_of(&out)
}

pub open spec fn word_replace_spec(p: Seq<char>, find: Seq<char>, repl: Seq<char>) -> Seq<char> {
    "from docx import Document\nd = Document("@ + p + ")\ncount = 0\nfor para in d.paragraphs:\n    if "@ + find + " in para.text:\n        count += para.text.count("@ + find + ")\n        para.text = para.text.replace("@ + find + ", "@ + repl + ")\nd.save("@ + p + ")\nprint(f'Replaced {count} occurrence(s)')\n"@
}

fn word_replace_script(p: &str, find: &str, repl: &str) -> (r: String)
    ensures
        r@ == word_replace_spec(p@, find@, repl@),
{
    let mut out = chars_of("from docx import Document\nd = Document(");
    push_str(&mut out, p);
    push_str(&mut out, ")\ncount = 0\nfor para in d.paragraphs:\n    if ");
    push_str(&mut out, find);
    push_str(&mut out, " in para.text:\n        count += para.text.count(");
    push_str(&mut out, find);
    push_str(&mut out, ")\n        para.text = para.text.replace(");
    push_str(&mut out, find);
    push_str(&mut out, ", ");
    push_str(&mut out, repl);
    push_str(&mut out, ")\nd.save(");
    push_str(&mut out, p);
    push_str(&mut out, ")\nprint(f'Replaced {count} occurrence(s)')\n");
    string_of(&out)
}

pub open spec fn excel_sheets_spec(p: Seq<char>) -> Seq<char> {
    "from openpyxl import load_workbook\nwb = load_workbook("@ + p + ", data_only=True)\nfor ws in wb.worksheets:\n    print(f'Sheet: {ws.title} ({ws.max_row}x{ws.max_column})')\n"@
}

fn excel_sheets_script(p: &str) -> (r: String)
    ensures
        r@ == excel_sheets_spec(p@),
{
    let mut out = chars_of("from openpyxl import load_workbook\nwb = load_workbook(");
    push_str(&mut out, p);
    push_str(&mut out, ", data_only=True)\nfor ws in wb.worksheets:\n    print(f'Sheet: {ws.title} ({ws.max_row}x{ws.max_column})')\n");
    string_of(&out)
}

pub open spec fn excel_write_cell_spec(p: Seq<char>, s: Seq<char>, c: Seq<char>, v: Seq<char>) -> Seq<char> {
    "from openpyxl import load_workbook\nwb = load_workbook("@ + p + ")\nws = wb["@ + s + "] if "@ + s + " else wb.active\nws["@ + c + "] = "@ + v + "\nwb.save("@ + p + ")\nprint('Wrote cell "@ + c + "')\n"@
}

fn excel_write_cell_script(p: &str, s: &str, c: &str, v: &str) -> (r: String)
    ensures
        r@ == excel_write_cell_spec(p@, s@, c@, v@),
{
    let mut out = chars_of("from openpyxl import load_workbook\nwb = load_workbook(");
    push_str(&mut out, p);
    push_str(&mut out, ")\nws = wb[");
    push_str(&mut out, s);
    push_str(&mut out, "] if ");
    push_str(&mut out, s);
    push_str(&mut out, " else wb.active\nws[");
    push_str(&mut out, c);
    push_str(&mut out, "] = ");
    push_str(&mut out, v);
    push_str(&mut out, "\nwb.save(");
    push_str(&mut out, p);
    push_str(&mut out, ")\nprint('Wrote cell ");
    push_str(&mut out, c);
    push_str(&mut out, "')\n");
    string_of(&out)
}

pub open spec fn excel_write_range_spec(p: Seq<char>, s: Seq<char>, v: Seq<char>, c: Seq<char>) -> Seq<char> {
    "import json\nfrom openpyxl import load_workbook\nfrom openpyxl.utils import range_boundaries\nwb = load_workbook("@ + p + ")\nws = wb["@ + s + "] if "@ + s + " else wb.active\ndata = json.loads("@ + v + ")\nmin_col, min_row, _, _ = range_boundaries("@ + c + " + ':' + "@ + c + ")\nfor ri, row in enumerate(data):\n    for ci, val in enumerate(row):\n        ws.cell(row=min_row+ri, column=min_col+ci, value=val)\nwb.save("@ + p + ")\nprint(f'Wrote {len(data)} row(s) starting at "@ + c + "')\n"@
}

fn excel_write_range_script(p: &str, s: &str, v: &str, c: &str) -> (r: String)
    ensures
        r@ == excel_write_range_spec(p@, s@, v@, c@),
{
    let mut out = chars_of("import json\nfrom openpyxl import load_workbook\nfrom openpyxl.utils import range_boundaries\nwb = load_workbook(");
    push_str(&mut out, p);
    push_str(&mut out, ")\nws = wb[");
    push_str(&mut out, s);
    push_str(&mut out, "] if ");
    push_str(&mut out, s);
    push_str(&mut out, " else wb.active\ndata = json.loads(");
    push_str(&mut out, v);
    push_str(&mut out, ")\nmin_col, min_row, _, _ = range_boundaries(");
    push_str(&mut out, c);
    push_str(&mut out, " + ':' + ");
    push_str(&mut out, c);
    push_str(&mut out, ")\nfor ri, row in enumerate(data):\n    for ci, val in enumerate(row):\n        ws.cell(row=min_row+ri, column=min_col+ci, value=val)\nwb.save(");
    push_str(&mut out, p);
    push_str(&mut out, ")\nprint(f'Wrote {len(data)} row(s) starting at ");
    push_str(&mut out, c);
    push_str(&mut out, "')\n");
    string_of(&out)
}

pub open spec fn excel_locate_cell_spec(p: Seq<char>, s: Seq<char>, find: Seq<char>) -> Seq<char> {
    "from openpyxl import load_workbook\nwb = load_workbook("@ + p + ", data_only=True)\nws = wb["@ + s + "] if "@ + s + " else wb.active\nfound = []\nfor row in ws.iter_rows():\n    for c in row:\n        if c.value is not None and "@ + find + " in str(c.value):\n            found.append(c.coordinate)\nprint(', '.join(found) if found else 'not found')\n"@
}

fn excel_locate_cell_script(p: &str, s: &str, find: &str) -> (r: String)
    ensures
        r@ == excel_locate_cell_spec(p@, s@, find@),
{
    let mut out = chars_of("from openpyxl import load_workbook\nwb = load_workbook(");
    push_str(&mut out, p);
    push_str(&mut out, ", data_only=True)\nws = wb[");
    push_str(&mut out, s);
    push_str(&mut out, "] if ");
    push_str(&mut out, s);
    push_str(&mut out, " else wb.active\nfound = []\nfor row in ws.iter_rows():\n    for c in row:\n        if c.value is not None and ");
    push_str(&mut out, find);
    push_str(&mut out, " in str(c.value):\n            found.append(c.coordinate)\nprint(', '.join(found) if found else 'not found')\n");
    string_of(&out)
}

pub open spec fn excel_fill_cell_spec(p: Seq<char>, s: Seq<char>, c: Seq<char>, find: Seq<char>, v: Seq<char>) -> Seq<char> {
    "from openpyxl import load_workbook\nfrom openpyxl.utils import column_index_from_string\nwb = load_workbook("@ + p + ")\nws = wb["@ + s + "] if "@ + s + " else wb.active\ntarget_col = column_index_from_string("@ + c + ")\nwritten = False\nfor row in ws.iter_rows():\n    first = row[0].value\n    if first is not None and "@ + find + " in str(first):\n        ws.cell(row=row[0].row, column=target_col, value="@ + v + ")\n        written = True\n        break\nwb.save("@ + p + ")\nprint('Wrote cell' if written else 'row not found')\n"@
}

fn excel_fill_cell_script(p: &str, s: &str, c: &str, find: &str, v: &str) -> (r: String)
    ensures
        r@ == excel_fill_cell_spec(p@, s@, c@, find@, v@),
{
    let mut out = chars_of("from openpyxl import load_workbook\nfrom openpyxl.utils import column_index_from_string\nwb = load_workbook(");
    push_str(&mut out, p);
    push_str(&mut out, ")\nws = wb[");
    push_str(&mut out, s);
    push_str(&mut out, "] if ");
    push_str(&mut out, s);
    push_str(&mut out, " else wb.active\ntarget_col = column_index_from_string(");
    push_str(&mut out, c);
    push_str(&mut out, ")\nwritten = False\nfor row in ws.iter_rows():\n    first = row[0].value\n    if first is not None and ");
    push_str(&mut out, find);
    push_str(&mut out, " in str(first):\n        ws.cell(row=row[0].row, column=target_col, value=");
    push_str(&mut out, v);
    push_str(&mut out, ")\n        written = True\n        break\nwb.save(");
    push_str(&mut out, p);
    push_str(&mut out, ")\nprint('Wrote cell' if written else 'row not found')\n");
    string_of(&out)
}

pub open spec fn cell_or(c: Option<String>, d: Seq<char>) -> Seq<char> {
    match c {
        Some(s) => s@,
        None => d,
    }
}

/// The script a Word action runs.
pub open spec fn word_action_spec(action: Seq<char>, q: OfficeParams, path: Seq<char>) -> Result<
    (Seq<char>, bool, bool),
    Seq<char>,
> {
    let p = py_literal(path);
    if action == "read"@ || action == "inspect"@ || action == "paragraphs"@ {
        Ok((word_read_spec(p), false, false))
    } else if action == "append"@ {
        Ok((word_append_spec(p, py_literal(q.text@)), true, false))
    } else if action == "set-paragraph"@ {
        Ok((word_set_paragraph_spec(p, decimal_spec(q.index as nat), py_literal(q.text@)), true, true))
    } else if action == "replace"@ {
        Ok((word_replace_spec(p, py_literal(q.find@), py_literal(q.replace@)), true, false))
    } else {
        Err("Unknown word action '"@ + action + "'"@)
    }
}

/// The script an Excel action runs.
pub open spec fn excel_action_spec(action: Seq<char>, q: OfficeParams, path: Seq<char>) -> Result<
    (Seq<char>, bool, bool),
    Seq<char>,
> {
    let p = py_literal(path);
    let s = py_literal(q.sheet@);
    if action == "sheets"@ || action == "inspect"@ || action == "read"@ {
        Ok((excel_sheets_spec(p), false, false))
    } else if action == "write-cell"@ {
        Ok((excel_write_cell_spec(p, s, py_literal(cell_or(q.cell, Seq::empty())), py_literal(q.value@)), true, false))
    } else if action == "write-range"@ || action == "fill-table"@ {
        Ok((excel_write_range_spec(p, s, py_literal(q.value_json@), py_literal(cell_or(q.cell, "A1"@))), true, false))
    } else if action == "locate-cell"@ {
        Ok((excel_locate_cell_spec(p, s, py_literal(q.find@)), true, false))
    } else if action == "fill-cell"@ {
        Ok(
            (
                excel_fill_cell_spec(p, s, py_literal(cell_or(q.cell, Seq::empty())), py_literal(q.find@), py_literal(q.value@)),
                true,
                false,
            ),
        )
    } else {
        Err("Unknown excel action '"@ + action + "'"@)
    }
}

/// Which action of which suite a request runs: a path is required; an
/// `.xlsx` path under `libreoffice` is a workbook, any other a document.
pub open spec fn execute_spec(kind: Seq<char>, action: Seq<char>, path: Seq<char>, q: OfficeParams) -> Result<
    (Seq<char>, bool, bool),
    Seq<char>,
> {
    if path.len() == 0 {
        Err("Missing 'path' parameter"@)
    } else if kind == "word"@ {
        word_action_spec(action, q, path)
    } else if kind == "excel"@ {
        excel_action_spec(action, q, path)
    } else if kind == "libreoffice"@ {
        if ends(path, ".xlsx"@) {
            excel_action_spec(action, q, path)
        } else {
            word_action_spec(action, q, path)
        }
    } else {
        Err("Unknown office type '"@ + kind + "': use 'word', 'excel', or 'libreoffice'"@)
    }
}

fn quoted_error(prefix: &str, name: &str, suffix: &str) -> (r: String)
    ensures
        r@ == prefix@ + name@ + suffix@,
{
    let mut out = chars_of(prefix);
    push_str(&mut out, name);
    push_str(&mut out, suffix);
    string_of(&out)
}

fn cell_or_exec(c: &Option<String>, d: &str) -> (r: String)
    ensures
        r@ == cell_or(*c, d@),
{
    match c {
        Some(s) => to_string(s.as_str()),
        None => to_string(d),
    }
}

pub fn word_action(action: &str, params: &OfficeParams, path: &str) -> (r: Result<PythonRun, String>)
    ensures
        plan_view(r) == word_action_spec(action@, *params, path@),
{
    let p = python_str_lit(path);
    let p = p.as_str();
    if str_eq(action, "read") || str_eq(action, "inspect") || str_eq(action, "paragraphs") {
        Ok(PythonRun { script: word_read_script(p), trim_output: false, error_marker: false })
    } else if str_eq(action, "append") {
        let t = python_str_lit(params.text.as_str());
        Ok(PythonRun { script: word_append_script(p, t.as_str()), trim_output: true, error_marker: false })
    } else if str_eq(action, "set-paragraph") {
        let idx = string_of(&decimal(params.index));
        let t = python_str_lit(params.text.as_str());
        Ok(
            PythonRun {
                script: word_set_paragraph_script(p, idx.as_str(), t.as_str()),
                trim_output: true,
                error_marker: true,
            },
        )
    } else if str_eq(action, "replace") {
        let f = python_str_lit(params.find.as_str());
        let rp = python_str_lit(params.replace.as_str());
        Ok(PythonRun { script: word_replace_script(p, f.as_str(), rp.as_str()), trim_output: true, error_marker: false })
    } else {
        Err(quoted_error("Unknown word action '", action, "'"))
    }
}

pub fn excel_action(action: &str, params: &OfficeParams, path: &str) -> (r: Result<PythonRun, String>)
    ensures
        plan_view(r) == excel_action_spec(action@, *params, path@),
{
    let p = python_str_lit(path);
    let p = p.as_str();
    let s = python_str_lit(params.sheet.as_str());
    let s = s.as_str();
    proof {
        reveal_strlit("");
    }
    if str_eq(action, "sheets") || str_eq(action, "inspect") || str_eq(action, "read") {
        Ok(PythonRun { script: excel_sheets_script(p), trim_output: false, error_marker: false })
    } else if str_eq(action, "write-cell") {
        let c = python_str_lit(cell_or_exec(&params.cell, "").as_str());
        let v = python_str_lit(params.value.as_str());
        Ok(
            PythonRun {
                script: excel_write_cell_script(p, s, c.as_str(), v.as_str()),
                trim_output: true,
                error_marker: false,
            },
        )
    } else if str_eq(action, "write-range") || str_eq(action, "fill-table") {
        let c = python_str_lit(cell_or_exec(&params.cell, "A1").as_str());
        let v = python_str_lit(params.value_json.as_str());
        Ok(
            PythonRun {
                script: excel_write_range_script(p, s, v.as_str(), c.as_str()),
                trim_output: true,
                error_marker: false,
            },
        )
    } else if str_eq(action, "locate-cell") {
        let f = python_str_lit(params.find.as_str());
        Ok(PythonRun { script: excel_locate_cell_script(p, s, f.as_str()), trim_output: true, error_marker: false })
    } else if str_eq(action, "fill-cell") {
        let c = python_str_lit(cell_or_exec(&params.cell, "").as_str());
        let f = python_str_lit(params.find.as_str());
        let v = python_str_lit(params.value.as_str());
        Ok(
            PythonRun {
                script: excel_fill_cell_script(p, s, c.as_str(), f.as_str(), v.as_str()),
                trim_output: true,
                error_marker: false,
            },
        )
    } else {
        Err(quoted_error("Unknown excel action '", action, "'"))
    }
}

/// Plans an office action: the script to run and how to read its output.
pub fn execute(kind: &str, action: &str, path: &str, params: &OfficeParams) -> (r: Result<PythonRun, String>)
    ensures
        plan_view(r) == execute_spec(kind@, action@, path@, *params),
{
    if path.is_empty() {
        return Err(to_string("Missing 'path' parameter"));
    }
    if str_eq(kind, "word") {
        word_action(action, params, path)
    } else if str_eq(kind, "excel") {
        excel_action(action, params, path)
    } else if str_eq(kind, "libreoffice") {
        let x = chars_of(".xlsx");
        if ends_with(&chars_of(path), &x) {
            proof {
                assert(x@.is_suffix_of(path@) == ends(path@, ".xlsx"@));
            }
            excel_action(action, params, path)
        } else {
            proof {
                assert(x@.is_suffix_of(path@) == ends(path@, ".xlsx"@));
            }
            word_action(action, params, path)
        }
    } else {
        Err(quoted_error("Unknown office type '", kind, "': use 'word', 'excel', or 'libreoffice'"))
    }
}

/// What a run's output makes of the action: the interpreter's error text
/// when it failed; else the output, trimmed where the run asks, and an
/// error when the run treats an `ERROR` in it as one.
pub open spec fn office_result_spec(run: (Seq<char>, bool, bool), out: Seq<char>, err: Seq<char>, ok: bool) -> Result<
    Seq<char>,
    Seq<char>,
> {
    if !ok {
        Err(err)
    } else if run.2 && contains_spec(out, "ERROR"@) {
        Err(trim_spec(out))
    } else if run.1 {
        Ok(trim_spec(out))
    } else {
        Ok(out)
    }
}

pub fn office_result(run: &PythonRun, out: &str, err: &str, ok: bool) -> (r: Result<String, String>)
    ensures
        match r {
            Ok(s) => office_result_spec(run_view(*run), out@, err@, ok) == Ok::<Seq<char>, Seq<char>>(s@),
            Err(e) => office_result_spec(run_view(*run), out@, err@, ok) == Err::<Seq<char>, Seq<char>>(e@),
        },
{
    if !ok {
        return Err(to_string(err));
    }
    let o = chars_of(out);
    if run.error_marker {
        let marker = chars_of("ERROR");
        if find(&o, &marker).is_some() {
            return Err(string_of(&trim(&o)));
        }
    }
    if run.trim_output {
        Ok(string_of(&trim(&o)))
    } else {
        Ok(to_string(out))
    }
}

} // verus!
