use deslop_core::ast::{ByteRange, FileId};
use deslop_core::cluster::exact_runs::SourceFile;
use deslop_core::cluster::scope::FileLanguage;
use deslop_core::cluster_filters::contract_index::ContractIndex;
use deslop_core::ast::Fingerprint;
use deslop_core::cluster_filters::noise_bank::{is_noise_pattern, language_specific_noise, noise_filter, python_noise, NoiseFilter};
use deslop_core::cluster_filters::polymorphic::OwnedSubject;
use deslop_core::cluster_filters::snippets::Snippet;
use deslop_core::cluster_filters::polymorphic::subject::subjects_of;

const TS_TEST_A: &str = "it('renders the header', () => {\n  const view = mount(Header);\n  expect(view.text()).toContain('Deslop');\n  expect(view.find('nav').length).toBe(1);\n});\n";
const TS_TEST_B: &str = "it('renders the footer', () => {\n  const view = mount(Header);\n  expect(view.text()).toContain('Deslop');\n  expect(view.find('nav').length).toBe(1);\n});\n";
const TS_TEST_NEEDLE: &str = "it(";
const DART_GROUP_A: &str = "group('upload', () {\n  test('supports progress', () {\n    final bloc = CounterBloc();\n    expect(bloc.state, equals(0));\n  });\n});\n";
const DART_GROUP_B: &str = "group('download', () {\n  test('supports progress', () {\n    final bloc = CounterBloc();\n    expect(bloc.state, equals(0));\n  });\n});\n";
const DART_GROUP_NEEDLE: &str = "group(";

const USER: &str = "interface User {\n  name: string;\n  age: number;\n}\n";
const ORDER: &str = "export interface Order {\n  id: string;\n  total: number;\n}\n";
const CONTRACT: &str = "class Sink(ABC):\n    def write(self, data):\n        ...\n";

fn call_member(language: &'static str, source: &'static str, needle: &str, file: u32) -> Snippet<'static> {
    let start = source.find(needle).expect("the needle is in the member source");
    Snippet { language, source: source.as_bytes(), range: ByteRange { start, end: source.trim_end().len() }, file_id: FileId(file) }
}

fn whole(language: &'static str, source: &'static str, file: u32) -> Snippet<'static> {
    Snippet { language, source: source.as_bytes(), range: ByteRange { start: 0, end: source.len() }, file_id: FileId(file) }
}

fn no_contracts() -> ContractIndex {
    ContractIndex::build(&[], &[], "typescript")
}

/// Registered member sources, one file each, with one fingerprint per
/// member, run through the whole noise bank.
struct Corpus {
    sources: Vec<SourceFile>,
    members: Vec<Fingerprint>,
    language: &'static str,
}

impl Corpus {
    fn new() -> Self {
        Corpus { sources: Vec::new(), members: Vec::new(), language: "python" }
    }

    fn language(mut self, language: &'static str) -> Self {
        self.language = language;
        self
    }

    fn offer(mut self, source: &str, start: usize, end: usize) -> Self {
        let file_id = FileId(self.sources.len() as u32);
        self.sources.push(SourceFile { file_id, bytes: source.as_bytes().to_vec() });
        self.members.push(Fingerprint { hash: [0; 32], file_id, byte_range: ByteRange { start, end }, node_count: 12 });
        self
    }

    /// The range from the file start through the end of the call statement.
    fn member(self, source: &str, needle: &str) -> Self {
        let call_at = source.find(needle).expect("the needle is in the member source");
        let statement_end = source.len().saturating_sub(1);
        self.offer(source, 0, statement_end.max(call_at))
    }

    /// Exactly the call that starts at `needle` and ends at the source's
    /// last closing parenthesis.
    fn call_member(self, source: &str, needle: &str) -> Self {
        let start = source.find(needle).expect("the needle is in the member source");
        let end = source.rfind(')').map_or(source.len(), |close| close + 1);
        self.offer(source, start, end)
    }

    /// The expression running from `needle` through the end of `close`.
    fn expression_member(self, source: &str, needle: &str, close: &str) -> Self {
        let start = source.find(needle).expect("the needle is in the member source");
        let end = source.find(close).map_or(source.len(), |at| at + close.len());
        self.offer(source, start, end)
    }

    fn verdict(self) -> Option<NoiseFilter> {
        let languages: Vec<FileLanguage> =
            self.sources.iter().map(|file| FileLanguage { file_id: file.file_id, language: self.language }).collect();
        is_noise_pattern(&self.members, &self.sources, &languages)
    }
}

#[test]
fn test_bodies_are_judged_by_their_statements_not_their_names() {
    let verdict = Corpus::new()
        .call_member(TS_TEST_A, TS_TEST_NEEDLE)
        .call_member(TS_TEST_B, TS_TEST_NEEDLE)
        .language("typescript")
        .verdict();
    assert_eq!(verdict, None, "the differing test name is not literal-variation payload");
    let members = [call_member("typescript", TS_TEST_A, TS_TEST_NEEDLE, 0), call_member("typescript", TS_TEST_B, TS_TEST_NEEDLE, 1)];
    assert_eq!(noise_filter(&members, "typescript", None, &no_contracts(), None, &[]), None);
}

#[test]
fn dart_group_wrappers_carry_bodies_so_their_names_are_not_payload() {
    let verdict = Corpus::new()
        .call_member(DART_GROUP_A, DART_GROUP_NEEDLE)
        .call_member(DART_GROUP_B, DART_GROUP_NEEDLE)
        .language("dart")
        .verdict();
    assert_eq!(verdict, None, "a wrapper whose argument carries statements is authored logic");
}

const AWAITED_LOCATOR_A: &str = "test(\"the header sits above the sidebar\", async ({ page }) => {\n  const headerBox = await page.locator(\".site-header\").boundingBox();\n  expect(headerBox.y).toBe(0);\n});\n";
const AWAITED_LOCATOR_B: &str = "test(\"the stamp sits above the filters\", async ({ page }) => {\n  const stampBox = await page.locator(\".atlas-publication\").boundingBox();\n  expect(stampBox.y).toBe(0);\n});\n";
const AWAITED_NEEDLE: &str = "await page";
const AWAITED_CLOSE: &str = ".boundingBox()";
const AWAITED_IN_HELPER_A: &str = "export async function checkHeader(page) {\n  const headerBox = await page.locator(\".site-header\").boundingBox();\n  expect(headerBox.y).toBe(0);\n}\n";
const AWAITED_IN_HELPER_B: &str = "export async function checkStamp(page) {\n  const stampBox = await page.locator(\".atlas-publication\").boundingBox();\n  expect(stampBox.y).toBe(0);\n}\n";

#[test]
fn an_awaited_call_with_no_enclosing_call_is_judged_by_its_own_call() {
    let verdict = Corpus::new()
        .expression_member(AWAITED_IN_HELPER_A, AWAITED_NEEDLE, AWAITED_CLOSE)
        .expression_member(AWAITED_IN_HELPER_B, AWAITED_NEEDLE, AWAITED_CLOSE)
        .language("typescript")
        .verdict();
    assert_eq!(
        verdict,
        Some(NoiseFilter::LiteralCalls),
        "no call encloses the awaited expression, so the call it holds judges it, and only its selector varies"
    );
}

#[test]
fn an_awaited_call_inside_a_test_body_is_judged_by_its_own_call() {
    let verdict = Corpus::new()
        .expression_member(AWAITED_LOCATOR_A, AWAITED_NEEDLE, AWAITED_CLOSE)
        .expression_member(AWAITED_LOCATOR_B, AWAITED_NEEDLE, AWAITED_CLOSE)
        .language("typescript")
        .verdict();
    assert_eq!(
        verdict,
        Some(NoiseFilter::LiteralCalls),
        "the awaited call is `page.locator(SELECTOR).boundingBox()` in both members and only the selector differs"
    );
}

const PLAIN_A: &str = "def member_a():\n    greet(\"alice\")\n";
const PLAIN_B: &str = "def member_b():\n    greet(\"bob\")\n";
const INTERP_A: &str = "def member_a():\n    describe(f\"user-{index}\")\n";
const INTERP_B: &str = "def member_b():\n    describe(f\"order-{index}\")\n";
const SAME_A: &str = "def member_a():\n    greet(\"alice\")\n";
const SAME_B: &str = "def member_a():\n    greet(\"alice\")\n";
const CALL_NEEDLE: &str = "greet(";
const INTERP_NEEDLE: &str = "describe(";

#[test]
fn two_member_plain_literal_pair_is_convicted_at_split() {
    let verdict = Corpus::new().member(PLAIN_A, CALL_NEEDLE).member(PLAIN_B, CALL_NEEDLE).verdict();
    assert_eq!(verdict, Some(NoiseFilter::LiteralCalls));
}

#[test]
fn interpolation_varying_pair_publishes_at_split() {
    let verdict = Corpus::new().member(INTERP_A, INTERP_NEEDLE).member(INTERP_B, INTERP_NEEDLE).verdict();
    assert_eq!(verdict, None);
}

#[test]
fn byte_identical_call_pair_is_not_convicted() {
    let verdict = Corpus::new().member(SAME_A, CALL_NEEDLE).member(SAME_B, CALL_NEEDLE).verdict();
    assert_eq!(verdict, None);
}

#[test]
fn ts_scenario_pair_verdict_through_the_noise_bank() {
    let block_a = "test(\"rejects an unsupported field type\", () => {\n  const schema = buildSchema({ kind: \"record\", fields: [{ name: \"at\", type: \"Duration\" }] });\n  const result = encodeTdbin(schema);\n  expectErrorMessages(result, [\"field type is not supported by the binary codec\"]);\n});\n";
    let block_b = "test(\"rejects a typed map key\", () => {\n  const schema = buildSchema({ kind: \"record\", fields: [{ name: \"index\", type: \"Map<Point, i32>\" }] });\n  const result = encodeTdbin(schema);\n  expectErrorMessages(result, [\"typed map keys must be scalars\"]);\n});\n";
    let verdict = Corpus::new().member(block_a, "encodeTdbin").member(block_b, "encodeTdbin").language("typescript").verdict();
    assert_eq!(verdict, Some(NoiseFilter::LiteralCalls));
}

const RECEIVER_FLOW_A: &str = "test(\"points an optional empty record at the null offset\", () => {\n  const schema = loadFixture(\"empty-record-optional.td\");\n  const generated = generateRust(schema, { tdbin: true });\n  expect(generated).toContain(\"pub marker: Option<EmptyMarker>\");\n});\n";
const RECEIVER_FLOW_B: &str = "test(\"points a required empty record at the shared singleton\", () => {\n  const schema = loadFixture(\"empty-record-required.td\");\n  const generated = generateRust(schema, { tdbin: true });\n  expect(generated).toContain(\"pub marker: EmptyMarker\");\n});\n";

#[test]
fn adapter_consumed_through_the_receiver_is_still_scaffolding() {
    let verdict = Corpus::new()
        .member(RECEIVER_FLOW_A, "generateRust(")
        .member(RECEIVER_FLOW_B, "generateRust(")
        .language("typescript")
        .verdict();
    assert_eq!(verdict, Some(NoiseFilter::LiteralCalls));
}

const OVERLOADS_COMMAND: &str = "CmdType = t.TypeVar(\"CmdType\", bound=Command)\n\n@t.overload\ndef command(name: _AnyCallable) -> Command: ...\n\n@t.overload\ndef command(name: str | None, cls: type[CmdType], **attrs: t.Any) -> t.Callable[[_AnyCallable], CmdType]: ...\n";
const OVERLOADS_GROUP: &str = "GrpType = t.TypeVar(\"GrpType\", bound=Group)\n\n@t.overload\ndef group(name: _AnyCallable) -> Group: ...\n\n@t.overload\ndef group(name: str | None, cls: type[GrpType], **attrs: t.Any) -> t.Callable[[_AnyCallable], GrpType]: ...\n";

#[test]
fn a_statement_run_is_never_judged_by_the_one_call_it_contains() {
    let verdict = Corpus::new().member(OVERLOADS_COMMAND, "t.TypeVar(").member(OVERLOADS_GROUP, "t.TypeVar(").verdict();
    assert_eq!(verdict, None);
}

const PRODUCER_RUST: &str = "test(\"documents the generated Rust module\", () => {\n  const schema = loadFixture(\"documented-records.td\");\n  const generated = generateRust(schema, { tdbin: true });\n  expect(generated).toContain(\"pub struct Customer {\");\n});\n";
const PRODUCER_TYPESCRIPT: &str = "test(\"generates the Option scalar layout\", () => {\n  const schema = loadFixture(\"option-scalars.td\");\n  const generated = generateTypeScript(schema, { tdbin: true });\n  expect(generated).toContain(\"export type OptionScalars = {\");\n});\n";

#[test]
fn a_renamed_literal_free_adapter_keeps_the_scenario_family_convicted() {
    let verdict = Corpus::new()
        .member(PRODUCER_RUST, "loadFixture(")
        .member(PRODUCER_TYPESCRIPT, "loadFixture(")
        .language("typescript")
        .verdict();
    assert_eq!(verdict, Some(NoiseFilter::LiteralCalls));
}

#[test]
fn each_language_runs_only_its_own_idiom_filters() {
    let shapes = [whole("typescript", USER, 0), whole("typescript", ORDER, 1)];
    assert!(language_specific_noise("typescript", &shapes));
    assert!(language_specific_noise("tsx", &shapes));
    assert!(!language_specific_noise("python", &shapes));
    assert!(!language_specific_noise("rust", &shapes));
    assert_eq!(noise_filter(&shapes, "typescript", None, &no_contracts(), None, &[]), Some(NoiseFilter::LanguageSpecific));
    assert!(!python_noise(&shapes));
}

#[test]
fn contract_bound_implementations_are_judged_polymorphic_first() {
    let sources = vec![SourceFile { file_id: FileId(0), bytes: CONTRACT.as_bytes().to_vec() }];
    let languages = vec![FileLanguage { file_id: FileId(0), language: "python" }];
    let contracts = ContractIndex::build(&sources, &languages, "python");
    let members = [whole("python", CONTRACT, 0), whole("python", CONTRACT, 1)];
    let subject = |digest: u8| OwnedSubject {
        name: b"write".to_vec(),
        bases: vec![b"Sink".to_vec()],
        shape_digest: [digest; 32],
        overrides: false,
        abstract_declaration: false,
    };
    assert_eq!(
        noise_filter(&members, "python", Some(vec![subject(1), subject(2)]), &contracts, None, &[]),
        Some(NoiseFilter::Polymorphic)
    );
    assert_ne!(noise_filter(&members, "python", Some(vec![subject(1), subject(1)]), &contracts, None, &[]), Some(NoiseFilter::Polymorphic));
}

const STAMPED_BODIES: [&str; 4] = [
    "Text(\"alpha\")",
    "Column(children: [Text(\"beta\")])",
    "Container(width: 4, color: Colors.red)",
    "ListView(shrinkWrap: true)",
];

fn widget_scaffold(body: &str) -> String {
    format!(
        "class ExampleApp extends StatelessWidget {{\n  const ExampleApp({{super.key}});\n  @override\n  Widget build(BuildContext context) {{\n    return MaterialApp(home: {body});\n  }}\n}}\n"
    )
}

fn widget_scaffold_without_marker(body: &str) -> String {
    format!(
        "class ExampleApp extends StatelessWidget {{\n  const ExampleApp({{super.key}});\n  Widget build(BuildContext context) {{\n    return MaterialApp(home: {body});\n  }}\n}}\n"
    )
}

fn dart_verdict(sources: &[String]) -> Option<NoiseFilter> {
    let files: Vec<SourceFile> = sources
        .iter()
        .enumerate()
        .map(|(index, text)| SourceFile { file_id: FileId(index as u32), bytes: text.as_bytes().to_vec() })
        .collect();
    let languages: Vec<FileLanguage> =
        (0..sources.len()).map(|index| FileLanguage { file_id: FileId(index as u32), language: "dart" }).collect();
    let members: Vec<Snippet> = files
        .iter()
        .map(|file| Snippet { language: "dart", source: &file.bytes, range: ByteRange { start: 0, end: file.bytes.len() }, file_id: file.file_id })
        .collect();
    let contracts = ContractIndex::build(&files, &languages, "dart");
    let subjects = subjects_of(&members);
    noise_filter(&members, "dart", subjects, &contracts, None, &[])
}

#[test]
fn framework_stamped_dart_widget_scaffolds_are_convicted_by_the_override_marker() {
    let sources: Vec<String> = STAMPED_BODIES.iter().map(|body| widget_scaffold(body)).collect();
    assert_eq!(dart_verdict(&sources), Some(NoiseFilter::Polymorphic));
}

#[test]
fn a_missing_override_marker_proves_no_contract() {
    let sources: Vec<String> = STAMPED_BODIES.iter().map(|body| widget_scaffold_without_marker(body)).collect();
    assert_ne!(dart_verdict(&sources), Some(NoiseFilter::Polymorphic));
}

#[test]
fn byte_identical_overrides_are_not_convicted() {
    let sources: Vec<String> = ["Text(\"alpha\")", "Text(\"alpha\")"].iter().map(|body| widget_scaffold(body)).collect();
    assert_eq!(dart_verdict(&sources), None);
}
