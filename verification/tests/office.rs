use zwork_sidecar::office::{excel_action, execute, office_result, word_action, OfficeParams, PythonRun};

fn params() -> OfficeParams {
    OfficeParams {
        sheet: String::new(),
        cell: None,
        value: String::new(),
        value_json: "[]".into(),
        find: String::new(),
        replace: String::new(),
        text: String::new(),
        index: 0,
    }
}

#[test]
fn missing_path_and_unknown_kind_are_refused() {
    assert_eq!(execute("word", "read", "", &params()).err().unwrap(), "Missing 'path' parameter");
    assert_eq!(
        execute("pdf", "read", "/x.pdf", &params()).err().unwrap(),
        "Unknown office type 'pdf': use 'word', 'excel', or 'libreoffice'"
    );
    assert_eq!(word_action("zap", &params(), "/a.docx").err().unwrap(), "Unknown word action 'zap'");
    assert_eq!(excel_action("zap", &params(), "/a.xlsx").err().unwrap(), "Unknown excel action 'zap'");
}

#[test]
fn word_read_script_quotes_the_path() {
    let run = execute("word", "inspect", "/tmp/it's.docx", &params()).ok().unwrap();
    assert_eq!(
        run.script,
        "from docx import Document\nd = Document('/tmp/it\\'s.docx')\nfor i, para in enumerate(d.paragraphs):\n    print(f'[{i}] {para.style.name}: {para.text}')\n"
    );
    assert!(!run.trim_output);
    assert!(!run.error_marker);
}

#[test]
fn set_paragraph_script_and_error_marker() {
    let mut q = params();
    q.index = 12;
    q.text = "hi".into();
    let run = word_action("set-paragraph", &q, "/d.docx").ok().unwrap();
    assert_eq!(
        run.script,
        "from docx import Document\nd = Document('/d.docx')\nif 12 < len(d.paragraphs):\n    d.paragraphs[12].text = 'hi'\n    d.save('/d.docx')\n    print('Updated paragraph 12')\nelse:\n    print('ERROR: index out of range')\n"
    );
    assert_eq!(office_result(&run, " ERROR: index out of range\n", "", true), Err("ERROR: index out of range".to_string()));
    assert_eq!(office_result(&run, "Updated paragraph 12\n", "", true), Ok("Updated paragraph 12".to_string()));
    assert_eq!(office_result(&run, "", "Traceback", false), Err("Traceback".to_string()));
}

#[test]
fn libreoffice_picks_suite_by_extension() {
    let q = params();
    let x = execute("libreoffice", "read", "/b.xlsx", &q).ok().unwrap();
    assert!(x.script.starts_with("from openpyxl import load_workbook\nwb = load_workbook('/b.xlsx', data_only=True)\n"));
    let w = execute("libreoffice", "read", "/b.odt", &q).ok().unwrap();
    assert!(w.script.starts_with("from docx import Document\n"));
}

#[test]
fn excel_write_range_defaults_cell_to_a1() {
    let mut q = params();
    q.value_json = "[[1,2]]".into();
    q.sheet = "S".into();
    let run = excel_action("fill-table", &q, "/b.xlsx").ok().unwrap();
    assert!(run.script.contains("ws = wb['S'] if 'S' else wb.active\ndata = json.loads('[[1,2]]')\nmin_col, min_row, _, _ = range_boundaries('A1' + ':' + 'A1')\n"));
    assert!(run.script.ends_with("print(f'Wrote {len(data)} row(s) starting at 'A1'')\n"));
    assert!(run.trim_output);
}

#[test]
fn excel_write_cell_and_untrimmed_read() {
    let mut q = params();
    q.cell = Some("B2".into());
    q.value = "x".into();
    let run = excel_action("write-cell", &q, "/b.xlsx").ok().unwrap();
    assert_eq!(
        run.script,
        "from openpyxl import load_workbook\nwb = load_workbook('/b.xlsx')\nws = wb[''] if '' else wb.active\nws['B2'] = 'x'\nwb.save('/b.xlsx')\nprint('Wrote cell 'B2'')\n"
    );
    let read = excel_action("sheets", &q, "/b.xlsx").ok().unwrap();
    assert_eq!(office_result(&read, " Sheet: A (1x1)\n", "", true), Ok(" Sheet: A (1x1)\n".to_string()));
    let plain = PythonRun { script: String::new(), trim_output: true, error_marker: false };
    assert_eq!(office_result(&plain, " ERROR \n", "", true), Ok("ERROR".to_string()));
}
