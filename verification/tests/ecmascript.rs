use deslop_core::ast::{ByteRange, FileId};
use deslop_core::cluster_filters::ecmascript::{covers_only_property_signatures, is_ecmascript_data_shape_cluster};
use deslop_core::cluster_filters::python_collection_cells::{carries_lambda, collection_home, is_collection_sibling_cell_cluster};
use deslop_core::cluster_filters::snippets::Snippet;

const USER: &str = "interface User {\n  name: string;\n  age: number;\n}\n";
const ORDER: &str = "export interface Order {\n  id: string;\n  total: number;\n}\n";
const SERVICE: &str = "interface Service {\n  name: string;\n  start(): void;\n}\n";
const LOGIC: &str = "type Point = { x: number };\nfunction norm(p: Point) {\n  return p.x;\n}\n";

fn whole<'a>(language: &'static str, source: &'a str, file: u32) -> Snippet<'a> {
    Snippet { language, source: source.as_bytes(), range: ByteRange { start: 0, end: source.len() }, file_id: FileId(file) }
}

#[test]
fn interface_data_shapes_are_not_duplication() {
    assert!(covers_only_property_signatures(&whole("typescript", USER, 0)));
    assert!(covers_only_property_signatures(&whole("typescript", ORDER, 1)));
    assert!(!covers_only_property_signatures(&whole("typescript", SERVICE, 0)));
    assert!(!covers_only_property_signatures(&whole("typescript", LOGIC, 0)));
    assert!(!covers_only_property_signatures(&whole("python", USER, 0)));
    assert!(is_ecmascript_data_shape_cluster(&[whole("typescript", USER, 0), whole("typescript", ORDER, 1)]));
    assert!(!is_ecmascript_data_shape_cluster(&[whole("typescript", USER, 0), whole("typescript", USER, 1)]));
}

const RECORD: &str = "payload = {\"name\": name, \"arguments\": arguments}\n";
const LAMBDAS: &str = "handlers = {\"open\": lambda x: x, \"close\": lambda y: y}\n";

fn cell<'a>(source: &'a str, needle: &str) -> Snippet<'a> {
    let start = source.find(needle).expect("needle present");
    Snippet { language: "python", source: source.as_bytes(), range: ByteRange { start, end: start + needle.len() }, file_id: FileId(0) }
}

#[test]
fn sibling_cells_of_one_record_are_not_duplication() {
    let cells = vec![cell(RECORD, "\"name\": name"), cell(RECORD, "\"arguments\": arguments")];
    assert_eq!(collection_home(&cells[0]), collection_home(&cells[1]));
    assert!(is_collection_sibling_cell_cluster(&cells));
    let lambdas = vec![cell(LAMBDAS, "\"open\": lambda x: x"), cell(LAMBDAS, "\"close\": lambda y: y")];
    assert!(carries_lambda(&lambdas[0]));
    assert!(!is_collection_sibling_cell_cluster(&lambdas));
    let same = vec![cell(RECORD, "\"name\": name"), cell(RECORD, "\"name\": name")];
    assert!(!is_collection_sibling_cell_cluster(&same));
}
