use deslop_core::ast::{ByteRange, FileId};
use deslop_core::cluster_filters::python::{
    contains_enum_member_access_token, is_chained_dict_assert_cluster, is_parametric_invariant_test_cluster,
    is_pytest_fixture_boilerplate_cluster, is_python_assertion_only_cluster, is_test_dict_literal_cluster,
    python_function_has_fixture_decorator, subscript_chain_depth, test_dict_literal_shape,
};
use deslop_core::cluster_filters::snippets::{parse_with_plugin, Snippet};
use deslop_core::cluster_filters::SyntaxNode;

/// The decorator line every fixture in these cases carries.
const FIXTURE_DECORATOR: &str = "@pytest.fixture";

/// A method's containing class, shared across the decorator cases.
const TEST_CLASS: &str = "class TestOrders:\n";
/// The same method body follows every decorator case.
const TEST_METHOD: &str = "    def orders_session(self):\n        yield sessionmaker()\n";
/// Supported fixture names and calls remain fixtures inside a class.
const FIXTURE_DECORATORS: &[(&str, &str)] = &[
    ("bare name", "    @fixture\n"),
    ("bare call", "    @fixture()\n"),
    ("pytest name", "    @pytest.fixture\n"),
    ("async fixture", "    @pytest_asyncio.fixture\n"),
    ("qualified name", "    @helpers.pytest.fixture\n"),
    ("configured fixture", "    @pytest.fixture(scope=\"class\")\n"),
    ("multiline configuration", "    @pytest.fixture(\n        scope=\"class\",\n    )\n"),
    ("stacked above", "    @pytest.fixture\n    @marker\n"),
    ("stacked below", "    @marker\n    @pytest.fixture\n"),
    ("comment", "    @pytest.fixture  # class-scoped setup\n"),
];
/// A fixture token outside the decorator's dotted callee is insufficient.
const ORDINARY_DECORATORS: &[(&str, &str)] = &[
    ("undecorated method", ""),
    ("ordinary decorator", "    @marker\n"),
    ("longer name", "    @pytest.fixture_factory\n"),
    ("different suffix", "    @fixture.marker\n"),
    ("fixture argument", "    @marker(pytest.fixture)\n"),
    ("fixture text argument", "    @marker(\"fixture\")\n"),
    ("fixture keyword", "    @marker(fixture=True)\n"),
    ("computed receiver", "    @factory().fixture\n"),
    ("computed callee", "    @fixture()()\n"),
];
/// A decorator on the class does not decorate its methods.
const DECORATED_CLASS: &str = "@pytest.fixture\nclass TestOrders:\n";

/// A pytest ORM-session fixture at module level.
fn module_level_fixture() -> String {
    format!(
        "import pytest\n\n{FIXTURE_DECORATOR}\ndef orders_session():\n    engine = create_engine(DATABASE_URL)\n    yield sessionmaker(bind=engine)()\n"
    )
}

/// The same fixture, grouped inside a test class.
fn class_nested_fixture() -> String {
    format!(
        "import pytest\n\nclass TestOrders:\n    {FIXTURE_DECORATOR}\n    def orders_session(self):\n        engine = create_engine(DATABASE_URL)\n        yield sessionmaker(bind=engine)()\n"
    )
}

/// The first `function_definition` in `node`'s subtree, depth first.
fn first_function_definition(node: &SyntaxNode) -> Option<&SyntaxNode> {
    if node.kind == "function_definition" {
        return Some(node);
    }
    node.children.iter().find_map(first_function_definition)
}

/// Whether the sole `def` in `source` is recognised as carrying a fixture
/// decorator, or `None` when `source` does not parse into one.
fn fixture_decorator_is_recognised(source: &str) -> Option<bool> {
    let tree = parse_with_plugin("python", source.as_bytes())?;
    let function = first_function_definition(&tree)?;
    Some(python_function_has_fixture_decorator(&tree, function, source.as_bytes()))
}

#[test]
fn module_level_pytest_fixture_is_recognised() {
    assert_eq!(
        fixture_decorator_is_recognised(&module_level_fixture()),
        Some(true),
        "a module-level @pytest.fixture must be recognised as fixture boilerplate"
    );
}

#[test]
fn class_nested_pytest_fixture_is_recognised() {
    assert_eq!(
        fixture_decorator_is_recognised(&class_nested_fixture()),
        Some(true),
        "a class-nested @pytest.fixture is the same fixture boilerplate as a module-level one"
    );
}

#[test]
fn class_methods_recognise_fixture_decorator_forms() {
    for (label, decorator) in FIXTURE_DECORATORS {
        let source = format!("{TEST_CLASS}{decorator}{TEST_METHOD}");
        assert_eq!(fixture_decorator_is_recognised(&source), Some(true), "{label}");
    }
}

#[test]
fn class_methods_distinguish_other_decorator_forms() {
    for (label, decorator) in ORDINARY_DECORATORS {
        let source = format!("{TEST_CLASS}{decorator}{TEST_METHOD}");
        assert_eq!(fixture_decorator_is_recognised(&source), Some(false), "{label}");
    }
    let source = format!("{DECORATED_CLASS}{TEST_METHOD}");
    assert_eq!(fixture_decorator_is_recognised(&source), Some(false));
}

fn snippet<'a>(source: &'a str, needle: &str, file: u32) -> Snippet<'a> {
    let start = source.find(needle).expect("needle present");
    Snippet { language: "python", source: source.as_bytes(), range: ByteRange { start, end: start + needle.len() }, file_id: FileId(file) }
}

const FIXTURE_A: &str = "@pytest.fixture\ndef orders():\n    session = make_session()\n    yield session\n";
const FIXTURE_B: &str = "@pytest.fixture\ndef users():\n    session = make_session()\n    yield session\n";
const HELPER_B: &str = "def users():\n    session = make_session()\n    yield session\n";

#[test]
fn fixture_boilerplate_across_files_is_hidden() {
    let fixtures = vec![snippet(FIXTURE_A, "session = make_session()", 0), snippet(FIXTURE_B, "session = make_session()", 1)];
    assert!(is_pytest_fixture_boilerplate_cluster(&fixtures));
    let mixed = vec![snippet(FIXTURE_A, "session = make_session()", 0), snippet(HELPER_B, "session = make_session()", 1)];
    assert!(!is_pytest_fixture_boilerplate_cluster(&mixed));
    let one_file = vec![snippet(FIXTURE_A, "session = make_session()", 0), snippet(FIXTURE_B, "session = make_session()", 0)];
    assert!(!is_pytest_fixture_boilerplate_cluster(&one_file));
}

const ASSERTS_A: &str = "def test_a():\n    assert result.status == 200\n    assert result.body == \"ok\"\n";
const ASSERTS_B: &str = "def test_b():\n    assert reply.code == 404\n    assert reply.text == \"missing\"\n";
const ASSERT_CALL: &str = "def test_c():\n    assert check(reply) == 404\n    assert reply.text == \"missing\"\n";

#[test]
fn assertion_only_test_bodies_are_hidden() {
    let asserts = vec![snippet(ASSERTS_A, "assert result", 0), snippet(ASSERTS_B, "assert reply", 1)];
    let whole = |source: &'static str, file: u32| Snippet {
        language: "python",
        source: source.as_bytes(),
        range: ByteRange { start: source.find("assert").expect("assert"), end: source.len() },
        file_id: FileId(file),
    };
    assert!(is_python_assertion_only_cluster(&[whole(ASSERTS_A, 0), whole(ASSERTS_B, 1)]));
    assert!(!is_python_assertion_only_cluster(&[whole(ASSERTS_A, 0), whole(ASSERT_CALL, 1)]));
    assert_eq!(asserts.len(), 2);
}

const CHAINED_A: &str = "def test_config():\n    assert config[\"db\"][\"host\"] == \"localhost\"\n";
const CHAINED_B: &str = "def test_flags():\n    assert flags[\"ui\"][\"dark\"] is True\n";
const SHALLOW: &str = "def test_flat():\n    assert flags[\"ui\"] is True\n";

#[test]
fn chained_dict_asserts_in_test_functions_are_hidden() {
    let chained = vec![snippet(CHAINED_A, "assert config", 0), snippet(CHAINED_B, "assert flags", 1)];
    assert!(is_chained_dict_assert_cluster(&chained));
    let shallow = vec![snippet(CHAINED_A, "assert config", 0), snippet(SHALLOW, "assert flags", 1)];
    assert!(!is_chained_dict_assert_cluster(&shallow));
    let tree = parse_with_plugin("python", b"x[1][2][3]\n").expect("python parses");
    let subscript = &tree.children[0].children[0];
    assert_eq!(subscript_chain_depth(subscript, b"x[1][2][3]\n"), 3);
}

const DICT_A: &str = "def test_create():\n    payload = {\"name\": \"a\", \"description\": \"b\"}\n";
const DICT_B: &str = "def test_update():\n    payload = {\"name\": \"c\", \"owner\": \"d\"}\n";
const DICT_C: &str = "def test_other():\n    payload = {\"name\": \"e\", \"description\": \"f\"}\n";

#[test]
fn test_dict_literals_with_different_keys_are_hidden() {
    let differing = vec![snippet(DICT_A, "{\"name\"", 0), snippet(DICT_B, "{\"name\"", 1)];
    let whole_dict = |source: &'static str, file: u32| {
        let start = source.find('{').expect("dict");
        let end = source.rfind('}').expect("dict") + 1;
        Snippet { language: "python", source: source.as_bytes(), range: ByteRange { start, end }, file_id: FileId(file) }
    };
    let shape = test_dict_literal_shape(&whole_dict(DICT_A, 0)).expect("a dict shape");
    assert_eq!(shape.keys, vec![b"\"name\"".to_vec(), b"\"description\"".to_vec()]);
    assert!(is_test_dict_literal_cluster(&[whole_dict(DICT_A, 0), whole_dict(DICT_B, 1)]));
    assert!(!is_test_dict_literal_cluster(&[whole_dict(DICT_A, 0), whole_dict(DICT_C, 1)]));
    assert!(test_dict_literal_shape(&differing[0]).is_none());
}

const PARAMETRIC_A: &str = "def test_k8s():\n    assert deploy(Kind.K8S) == 1\n";
const PARAMETRIC_B: &str = "def test_docker():\n    assert deploy(Kind.DOCKER) == 1\n";
const PLAIN: &str = "def test_plain():\n    assert deploy(kind) == 1\n";

#[test]
fn tests_varying_only_by_enum_member_are_hidden() {
    assert!(contains_enum_member_access_token(b"x = Kind.K8S"));
    assert!(!contains_enum_member_access_token(b"x = kind.K8S"));
    assert!(!contains_enum_member_access_token(b"x = Kind.k8s"));
    assert!(!contains_enum_member_access_token(b"xKind.K8S"));
    let parametric = vec![snippet(PARAMETRIC_A, "assert deploy(Kind.K8S) == 1", 0), snippet(PARAMETRIC_B, "assert deploy(Kind.DOCKER) == 1", 1)];
    assert!(is_parametric_invariant_test_cluster(&parametric));
    let plain = vec![snippet(PARAMETRIC_A, "assert deploy(Kind.K8S) == 1", 0), snippet(PLAIN, "assert deploy(kind) == 1", 1)];
    assert!(!is_parametric_invariant_test_cluster(&plain));
}
