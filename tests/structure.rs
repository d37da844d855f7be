use cif_parser::cif::{
    parse_cif, parse_data_item, parse_data_item_or_save_frame, DataBlock, DataItem, Item, Loop,
    MultiValue, SaveFrame,
};
use cif_parser::error::{ErrorKind, ErrorLevel};
use cif_parser::mmcif::{save_mmcif_raw, StructureText, Symmetry, UnitCell};
use cif_parser::position::Position;
use cif_parser::value::{Number, Value};

fn to_f64(n: &Number) -> f64 {
    let mut value = 0.0;
    for d in &n.integer {
        value = value * 10.0 + f64::from(*d);
    }
    let mut power: f64 = 1.0;
    for d in &n.fraction {
        power *= 10.0;
        value += f64::from(*d) / power;
    }
    if n.negative {
        value *= -1.0;
    }
    if !n.exponent.is_empty() {
        let mut e: i32 = 0;
        for d in &n.exponent {
            e = e * 10 + i32::from(*d);
        }
        if n.exponent_negative {
            e = -e;
        }
        value *= 10_f64.powi(e);
    }
    value
}

fn close(a: f64, b: f64) -> bool {
    let dif = a / b;
    (1.0 - dif) > -0.000000000000001 && (dif - 1.0) < 0.000000000000001
}

fn is_number(v: &Value, expected: f64) -> bool {
    match v {
        Value::Numeric(n) => close(to_f64(n), expected),
        _ => false,
    }
}

#[test]
fn parse_data_single_item_numeric() {
    let mut pos = Position::new("_tag\n42.3");
    let res = parse_data_item(&mut pos).unwrap();
    assert_eq!(res.name, "tag");
    match &res.content {
        MultiValue::Value(v) => assert!(is_number(v, 42.3), "{:?}", v),
        other => panic!("{:?}", other),
    }
    assert_eq!(pos.remaining(), "");
    assert_eq!(pos.line, 1);
    assert_eq!(pos.column, 4);
}

#[test]
fn parse_data_single_item_string() {
    let mut pos = Position::new("_tag\t\"of course I would\"");
    let res = parse_data_item(&mut pos);
    assert_eq!(
        res,
        Ok(DataItem {
            name: "tag".to_string(),
            content: MultiValue::Value(Value::Text("of course I would".to_string()))
        })
    );
    assert_eq!(pos.remaining(), "");
    assert_eq!(pos.line, 0);
    assert_eq!(pos.column, 24);
}

#[test]
fn parse_data_single_item_multiline_string() {
    let mut pos = Position::new("_long__tag\n;\tOf course I would\nAlso on multiple lines ;-)\n;");
    let res = parse_data_item(&mut pos);
    assert_eq!(
        res,
        Ok(DataItem {
            name: "long__tag".to_string(),
            content: MultiValue::Value(Value::Text(
                "\tOf course I would\nAlso on multiple lines ;-)\n".to_string()
            ))
        })
    );
    assert_eq!(pos.remaining(), "");
    assert_eq!(pos.line, 3);
    assert_eq!(pos.column, 1);
}

#[test]
fn parse_data_item_loop() {
    let mut pos = Position::new("_some_loop loop_\n_first\n_second\n_last\n#Some comment because I need to put that in here as well!\n. 23.2 ?\nHello 25.9 ?\nHey 30.3 N");
    let res = parse_data_item(&mut pos).unwrap();
    assert_eq!(res.name, "some_loop");
    let l = match res.content {
        MultiValue::Loop(l) => l,
        other => panic!("{:?}", other),
    };
    assert_eq!(
        l.header,
        vec!["first".to_string(), "second".to_string(), "last".to_string()]
    );
    assert_eq!(l.data.len(), 9);
    assert_eq!(l.data[0], Value::Inapplicable);
    assert!(is_number(&l.data[1], 23.2));
    assert_eq!(l.data[2], Value::Unknown);
    assert_eq!(l.data[3], Value::Text("Hello".to_string()));
    assert!(is_number(&l.data[4], 25.9));
    assert_eq!(l.data[5], Value::Unknown);
    assert_eq!(l.data[6], Value::Text("Hey".to_string()));
    assert!(is_number(&l.data[7], 30.3));
    assert_eq!(l.data[8], Value::Text("N".to_string()));
    assert_eq!(pos.remaining(), "");
    assert_eq!(pos.line, 7);
    assert_eq!(pos.column, 10);
}

#[test]
fn loop_of_two_rows() {
    let mut pos = Position::new("_some_loop loop_\n_first\n_second\n_last\n. 23.2 ?\nHello 25.9 ?");
    let res = parse_data_item(&mut pos).unwrap();
    assert_eq!(res.name, "some_loop");
    let l = match res.content {
        MultiValue::Loop(l) => l,
        other => panic!("{:?}", other),
    };
    assert_eq!(l.header, vec!["first", "second", "last"]);
    assert_eq!(l.data.len(), 6);
    assert_eq!(l.data.len() % l.header.len(), 0);
    assert_eq!(l.data[0], Value::Inapplicable);
    assert!(is_number(&l.data[1], 23.2));
    assert_eq!(l.data[2], Value::Unknown);
    assert_eq!(l.data[3], Value::Text("Hello".to_string()));
    assert!(is_number(&l.data[4], 25.9));
    assert_eq!(l.data[5], Value::Unknown);
    assert!(pos.is_empty());
}

#[test]
fn loop_stops_at_next_tag() {
    let mut pos = Position::new("_l loop_ _a _b 1 2 3 _next 4");
    let res = parse_data_item(&mut pos).unwrap();
    match res.content {
        MultiValue::Loop(Loop { header, data }) => {
            assert_eq!(header, vec!["a", "b"]);
            assert_eq!(data.len(), 3);
        }
        other => panic!("{:?}", other),
    }
    assert_eq!(pos.remaining(), "_next 4");
}

#[test]
fn parse_data_item_or_save_frame_data_item() {
    let mut pos = Position::new("_data ?");
    let res = parse_data_item_or_save_frame(&mut pos);
    assert_eq!(
        res,
        Ok(Item::DataItem(DataItem {
            name: "data".to_string(),
            content: MultiValue::Value(Value::Unknown)
        }))
    );
    assert_eq!(pos.remaining(), "");
    assert_eq!(pos.line, 0);
    assert_eq!(pos.column, 7);
}

#[test]
fn parse_data_item_or_save_frame_save_frame() {
    let mut pos = Position::new("save_something_to_save _data . save_");
    let res = parse_data_item_or_save_frame(&mut pos);
    assert_eq!(
        res,
        Ok(Item::SaveFrame(SaveFrame {
            name: "something_to_save".to_string(),
            items: vec![DataItem {
                name: "data".to_string(),
                content: MultiValue::Value(Value::Inapplicable)
            }]
        }))
    );
    assert_eq!(pos.remaining(), "");
    assert_eq!(pos.line, 0);
    assert_eq!(pos.column, 36);
}

#[test]
fn save_frame_with_comments_inside() {
    let mut pos = Position::new("SAVE_f # opened\n  _a 1 # one\n\n_b two\nSave_ rest");
    let res = parse_data_item_or_save_frame(&mut pos).unwrap();
    match res {
        Item::SaveFrame(f) => {
            assert_eq!(f.name, "f");
            assert_eq!(f.items.len(), 2);
            assert_eq!(f.items[1].name, "b");
        }
        other => panic!("{:?}", other),
    }
    assert_eq!(pos.remaining(), " rest");
}

#[test]
fn save_frame_without_close() {
    let mut pos = Position::new("save_x\n_a 1\n_b 2\n");
    let err = parse_data_item_or_save_frame(&mut pos).unwrap_err();
    assert_eq!(err.kind, ErrorKind::UnterminatedSaveFrame);
    assert_eq!(err.start.offset, 0);
    assert_eq!((err.end.offset, err.end.line, err.end.column), (17, 3, 0));
    assert_eq!(err.level(), ErrorLevel::BreakingError);
}

#[test]
fn save_frame_closed_only_by_bare_save() {
    let mut pos = Position::new("save_x _a 1 save_y _b 2 save_");
    let err = parse_data_item_or_save_frame(&mut pos).unwrap_err();
    assert_eq!(err.kind, ErrorKind::UnterminatedSaveFrame);
    assert_eq!(err.end.offset, 12);
}

#[test]
fn data_item_without_marker() {
    let mut pos = Position::new("tag 1");
    let err = parse_data_item(&mut pos).unwrap_err();
    assert_eq!(err.kind, ErrorKind::MissingDataItemMarker);
    assert_eq!(err.start.offset, 0);
    assert_eq!(pos.offset, 0);
    assert_eq!(pos.remaining(), "tag 1");
}

#[test]
fn data_item_without_value() {
    let mut pos = Position::new("_tag\n   ");
    let err = parse_data_item(&mut pos).unwrap_err();
    assert_eq!(err.kind, ErrorKind::MissingValueOrLoop);
    assert_eq!((err.start.offset, err.start.line, err.start.column), (0, 0, 0));
    assert_eq!((err.end.offset, err.end.line, err.end.column), (8, 1, 3));
    assert_eq!(pos.offset, 8);
}

#[test]
fn parse_cif_whole_document() {
    let text = "# header comment\ndata_1ABC\n_entry.id 1ABC\n\nsave_frame\n_a.b 'x y'\nsave_\n_cell.length_a 10.5(2) # trailing\n";
    let block = parse_cif(text.to_string()).unwrap();
    assert_eq!(block.name, "1ABC");
    assert_eq!(block.items.len(), 3);
    assert_eq!(
        block.items[0],
        Item::DataItem(DataItem {
            name: "entry.id".to_string(),
            content: MultiValue::Value(Value::Text("1ABC".to_string()))
        })
    );
    assert_eq!(
        block.items[1],
        Item::SaveFrame(SaveFrame {
            name: "frame".to_string(),
            items: vec![DataItem {
                name: "a.b".to_string(),
                content: MultiValue::Value(Value::Text("x y".to_string()))
            }]
        })
    );
    match &block.items[2] {
        Item::DataItem(DataItem { name, content: MultiValue::Value(Value::NumericWithUncertainty(n, u)) }) => {
            assert_eq!(name, "cell.length_a");
            assert!(close(to_f64(n), 10.5));
            assert_eq!(*u, 2);
        }
        other => panic!("{:?}", other),
    }
}

#[test]
fn parse_cif_empty_block() {
    assert_eq!(
        parse_cif("data_x".to_string()),
        Ok(DataBlock { name: "x".to_string(), items: vec![] })
    );
}

#[test]
fn parse_cif_without_header() {
    let err = parse_cif("  \n_tag 1".to_string()).unwrap_err();
    assert_eq!(err.kind, ErrorKind::MissingDataBlockHeader);
    assert_eq!((err.start.offset, err.start.line, err.start.column), (3, 1, 0));
    let err = parse_cif("data_ _tag 1".to_string()).unwrap_err();
    assert_eq!(err.kind, ErrorKind::MissingDataBlockHeader);
}

#[test]
fn parse_cif_stray_token() {
    let err = parse_cif("data_x\n_a 1\nstray".to_string()).unwrap_err();
    assert_eq!(err.kind, ErrorKind::MissingDataItemMarker);
    assert_eq!((err.start.line, err.start.column), (2, 0));
    assert!(!err.title().is_empty());
    assert!(!err.detail().is_empty());
}

#[test]
fn parse_cif_unterminated_frame() {
    let err = parse_cif("data_x\nsave_f\n_a 1\n# no close\n".to_string()).unwrap_err();
    assert_eq!(err.kind, ErrorKind::UnterminatedSaveFrame);
    assert_eq!(err.start.offset, 7);
}

#[test]
fn save_mmcif_raw_aligns_the_table() {
    let row = |cells: &[&str]| cells.iter().map(|c| c.to_string()).collect::<Vec<String>>();
    let pdb = StructureText {
        unit_cell: Some(UnitCell {
            a: "10".to_string(),
            b: "20".to_string(),
            c: "30".to_string(),
            alpha: "90".to_string(),
            beta: "90".to_string(),
            gamma: "120".to_string(),
        }),
        symmetry: Some(Symmetry { z: "2".to_string(), symbol: "P 1".to_string(), index: "1".to_string() }),
        atoms: vec![
            row(&["ATOM", "1", "C", "CA", ".", "ALA", "A", "1", "1", "?", "1.5", "2", "3", "1", "10.25", "?", "1"]),
            row(&["HETATM", "12", "O", "O", ".", "HOH", "B", "2", "7", "?", "-1", "0", "0", "1", "5", " ", "1"]),
        ],
    };
    let text = save_mmcif_raw(&pdb, "test");
    assert!(text.starts_with("data_test\n# \n_entry.id   test \n"));
    assert!(text.contains("_cell.length_a           10 \n"));
    assert!(text.contains("_cell.angle_gamma        120\n_cell.Z_PDB              2 \n"));
    assert!(text.contains("_symmetry.space_group_name_H-M             'P 1' \n"));
    assert!(text.contains("_symmetry.Int_Tables_number                1 \n"));
    assert!(text.ends_with("_atom_site.pdbx_PDB_model_num\nATOM   1  C CA . ALA A 1 1 ? 1.5 2 3 1 10.25 ? 1\nHETATM 12 O O  . HOH B 2 7 ? -1  0 0 1 5     ? 1\n#\n"));
}

#[test]
fn save_mmcif_raw_without_cell_or_symmetry() {
    let pdb = StructureText { unit_cell: None, symmetry: None, atoms: vec![] };
    let text = save_mmcif_raw(&pdb, "x");
    assert!(!text.contains("_cell."));
    assert!(!text.contains("_symmetry."));
    assert!(text.ends_with("_atom_site.pdbx_PDB_model_num\n#\n"));
}

#[test]
fn loop_data_stops_at_save() {
    let mut pos = Position::new("_l loop_ _a 1 2 save_");
    let res = parse_data_item(&mut pos).unwrap();
    assert_eq!(res.name, "l");
    match res.content {
        MultiValue::Loop(Loop { header, data }) => {
            assert_eq!(header, vec!["a"]);
            assert_eq!(data.len(), 2);
            assert!(is_number(&data[0], 1.0));
            assert!(is_number(&data[1], 2.0));
        }
        other => panic!("{:?}", other),
    }
    assert_eq!(pos.remaining(), "save_");
}

#[test]
fn loop_data_stops_at_loop() {
    let mut pos = Position::new("_l loop_ _a 1 LOOP_ _b 2");
    let res = parse_data_item(&mut pos).unwrap();
    match res.content {
        MultiValue::Loop(Loop { data, .. }) => assert_eq!(data.len(), 1),
        other => panic!("{:?}", other),
    }
    assert_eq!(pos.remaining(), "LOOP_ _b 2");
}

#[test]
fn save_frame_ending_with_a_loop() {
    let mut pos = Position::new("save_f _l loop_ _a _b 1 2 save_");
    let res = parse_data_item_or_save_frame(&mut pos).unwrap();
    match res {
        Item::SaveFrame(f) => {
            assert_eq!(f.name, "f");
            assert_eq!(f.items.len(), 1);
            assert_eq!(f.items[0].name, "l");
            match &f.items[0].content {
                MultiValue::Loop(Loop { header, data }) => {
                    assert_eq!(header, &vec!["a".to_string(), "b".to_string()]);
                    assert_eq!(data.len(), 2);
                    assert!(is_number(&data[0], 1.0));
                    assert!(is_number(&data[1], 2.0));
                }
                other => panic!("{:?}", other),
            }
        }
        other => panic!("{:?}", other),
    }
    assert_eq!(pos.remaining(), "");
}

#[test]
fn loop_keyword_must_stand_alone() {
    let mut pos = Position::new("_a loop_x");
    assert_eq!(
        parse_data_item(&mut pos),
        Ok(DataItem {
            name: "a".to_string(),
            content: MultiValue::Value(Value::Text("loop_x".to_string()))
        })
    );
}

#[test]
fn save_mmcif_raw_pads_by_bytes() {
    let row = |first: &str, last: &str| {
        let mut cells = vec![first.to_string()];
        for _ in 1..16 {
            cells.push("x".to_string());
        }
        cells.push(last.to_string());
        cells
    };
    let pdb = StructureText {
        unit_cell: None,
        symmetry: None,
        atoms: vec![row("\u{e9}", "\u{a0}"), row("ab", "1")],
    };
    let text = save_mmcif_raw(&pdb, "t");
    let lines: Vec<&str> = text.lines().collect();
    let n = lines.len();
    let (first, second) = (lines[n - 3], lines[n - 2]);
    assert_eq!(first, "\u{e9} x x x x x x x x x x x x x x x ? ");
    assert_eq!(second, "ab x x x x x x x x x x x x x x x 1 ");
    assert_eq!(first.len(), second.len());
}
