use deslop_core::ast::{ByteRange, FileId};
use deslop_core::cluster_filters::constant_table::is_module_constant_table_cluster;
use deslop_core::cluster_filters::python_class_shapes::{
    is_pydantic_partial_update_cluster, is_strenum_class_shape_cluster, partial_update_shape,
};
use deslop_core::cluster_filters::snippets::Snippet;

fn whole<'a>(source: &'a str, file: u32) -> Snippet<'a> {
    Snippet { language: "python", source: source.as_bytes(), range: ByteRange { start: 0, end: source.len() }, file_id: FileId(file) }
}

fn snippet<'a>(source: &'a str, needle: &str, file: u32) -> Snippet<'a> {
    let start = source.find(needle).expect("needle present");
    Snippet { language: "python", source: source.as_bytes(), range: ByteRange { start, end: start + needle.len() }, file_id: FileId(file) }
}

const COLOURS: &str = "class Colour(StrEnum):\n    \"\"\"Colours.\"\"\"\n    RED = \"red\"\n    BLUE = \"blue\"\n";
const SIZES: &str = "class Size(str, Enum):\n    SMALL = \"s\"\n    LARGE = \"l\"\n";
const TWO_ENUMS: &str = "class A(StrEnum):\n    X = \"x\"\n\nclass B(StrEnum):\n    Y = \"y\"\n";
const PLAIN_CLASS: &str = "class Colour(Base):\n    RED = \"red\"\n    BLUE = \"blue\"\n";
const ENUM_WITH_METHOD: &str = "class Colour(StrEnum):\n    RED = \"red\"\n    def label(self):\n        return self.value\n";

#[test]
fn strenum_discriminators_are_not_duplication() {
    assert!(is_strenum_class_shape_cluster(&[whole(COLOURS, 0), whole(SIZES, 1)]));
    assert!(is_strenum_class_shape_cluster(&[whole(TWO_ENUMS, 0), whole(COLOURS, 1)]));
    assert!(is_strenum_class_shape_cluster(&[snippet(COLOURS, "RED = \"red\"", 0), snippet(SIZES, "SMALL = \"s\"", 1)]));
    assert!(!is_strenum_class_shape_cluster(&[whole(COLOURS, 0), whole(PLAIN_CLASS, 1)]));
    assert!(!is_strenum_class_shape_cluster(&[whole(COLOURS, 0), whole(ENUM_WITH_METHOD, 1)]));
    assert!(!is_strenum_class_shape_cluster(&[whole(COLOURS, 0)]));
}

const USER_UPDATE: &str = "class UserUpdate(BaseModel):\n    name: str | None = None\n    email: None | str = None\n";
const TEAM_UPDATE: &str = "class TeamUpdate(BaseModel):\n    title: None | str = None\n";
const USER_CREATE: &str = "class UserCreate(BaseModel):\n    name: str\n    email: str | None = None\n";
const NOT_A_MODEL: &str = "class Settings(Config):\n    name: str | None = None\n";

#[test]
fn pydantic_partial_update_mirrors_are_not_duplication() {
    assert_eq!(partial_update_shape(&whole(USER_UPDATE, 0)), Some(true));
    assert_eq!(partial_update_shape(&whole(USER_CREATE, 0)), Some(false));
    assert_eq!(partial_update_shape(&whole(NOT_A_MODEL, 0)), None);
    assert!(is_pydantic_partial_update_cluster(&[whole(USER_UPDATE, 0), whole(TEAM_UPDATE, 1)]));
    assert!(is_pydantic_partial_update_cluster(&[snippet(USER_UPDATE, "name: str | None = None", 0), whole(TEAM_UPDATE, 1)]));
    assert!(!is_pydantic_partial_update_cluster(&[whole(USER_UPDATE, 0), whole(USER_CREATE, 1)]));
}

const QUERIES: &str = "SELECT = \"select 1\"\nLIMIT = 10\n";
const CONFIG: &str = "# defaults\nHOST = \"example.org\"\nPORT = 80\n";

#[test]
fn python_module_constant_tables_are_not_duplication() {
    assert!(is_module_constant_table_cluster(&[whole(QUERIES, 0), whole(CONFIG, 1)]));
    assert!(!is_module_constant_table_cluster(&[whole(QUERIES, 0), whole(QUERIES, 1)]));
    let rust = Snippet { language: "rust", ..whole(QUERIES, 1) };
    assert!(!is_module_constant_table_cluster(&[whole(QUERIES, 0), rust]));
}
