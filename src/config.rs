//! The expansion configuration: method, files, clock pins, faults and the cell library.
use vstd::prelude::*;
use crate::fault::Fault;
use crate::text::{trim, concat, contains_char, find_char, seq_contains, slice, str_eq, to_decimal, trim_spaces};
use crate::verilog::{duplicate_strings, string_views, wire_binding, Gate, GateView, ModuleError, PortWire, VerilogError};

verus! {

/// A time-expansion scheme.
#[derive(Clone, Copy, Debug, Eq, PartialEq, Structural)]
pub enum ExpansionMethod {
    Broadside,
    SkewedLoad,
}

/// What an `FFDefinition` stands for.
pub struct FFView {
    pub name: Seq<char>,
    pub data_in: Seq<Seq<char>>,
    pub data_out: Seq<Seq<char>>,
    pub control: Seq<Seq<char>>,
}

/// A flip-flop cell of the library: its data inputs, data outputs and control pins.
#[derive(Clone, Default, Debug, Eq, PartialEq)]
pub struct FFDefinition {
    pub name: String,
    pub data_in: Vec<String>,
    pub data_out: Vec<String>,
    pub control: Vec<String>,
}

impl View for FFDefinition {
    type V = FFView;

    open spec fn view(&self) -> FFView {
        FFView {
            name: self.name@,
            data_in: string_views(self.data_in@),
            data_out: string_views(self.data_out@),
            control: string_views(self.control@),
        }
    }
}

impl FFDefinition {
    pub fn data_in(&self) -> (r: &Vec<String>)
        ensures
            string_views(r@) == self@.data_in,
    {
        &self.data_in
    }

    pub fn data_out(&self) -> (r: &Vec<String>)
        ensures
            string_views(r@) == self@.data_out,
    {
        &self.data_out
    }

    pub fn control(&self) -> (r: &Vec<String>)
        ensures
            string_views(r@) == self@.control,
    {
        &self.control
    }

    pub fn name(&self) -> (r: &str)
        ensures
            r@ == self@.name,
    {
        self.name.as_str()
    }

    /// A copy of this definition.
    pub fn duplicate(&self) -> (r: FFDefinition)
        ensures
            r@ == self@,
    {
        FFDefinition {
            name: self.name.clone(),
            data_in: duplicate_strings(&self.data_in),
            data_out: duplicate_strings(&self.data_out),
            control: duplicate_strings(&self.control),
        }
    }

    pub fn name_mut(&mut self) -> (r: &mut String)
        ensures
            *r == old(self).name,
            *final(self) == (FFDefinition { name: *final(r), ..*old(self) }),
    {
        &mut self.name
    }

    pub fn set_name(&mut self, name: &String)
        ensures
            final(self)@ == (FFView { name: name@, ..old(self)@ }),
    {
        self.name = name.clone();
    }
}

/// What an `InvDefinition` stands for.
pub struct InvView {
    pub name: Seq<char>,
    pub input: Seq<char>,
    pub output: Seq<char>,
}

/// The library's inverter cell: its name, input port and output port.
#[derive(Clone, Default, Debug, Eq, PartialEq)]
pub struct InvDefinition {
    pub name: String,
    pub input: String,
    pub output: String,
}

impl View for InvDefinition {
    type V = InvView;

    open spec fn view(&self) -> InvView {
        InvView { name: self.name@, input: self.input@, output: self.output@ }
    }
}

impl InvDefinition {
    pub fn name(&self) -> (r: &str)
        ensures
            r@ == self@.name,
    {
        self.name.as_str()
    }

    pub fn name_mut(&mut self) -> (r: &mut String)
        ensures
            *r == old(self).name,
            *final(self) == (InvDefinition { name: *final(r), ..*old(self) }),
    {
        &mut self.name
    }

    pub fn set_name(&mut self, name: &String)
        ensures
            final(self)@ == (InvView { name: name@, ..old(self)@ }),
    {
        self.name = name.clone();
    }

    pub fn input(&self) -> (r: &str)
        ensures
            r@ == self@.input,
    {
        self.input.as_str()
    }

    pub fn output(&self) -> (r: &str)
        ensures
            r@ == self@.output,
    {
        self.output.as_str()
    }

    /// Whether any of the name, the input port or the output port is empty.
    pub fn is_empty(&self) -> (r: bool)
        ensures
            r == (self@.name.len() == 0 || self@.input.len() == 0 || self@.output.len() == 0),
    {
        self.name.as_str().unicode_len() == 0 || self.input.as_str().unicode_len() == 0
            || self.output.as_str().unicode_len() == 0
    }

    /// An inverter instance reading `input_wire` and driving `output_wire`.
    pub fn to_gate(&self, input_wire: String, output_wire: String) -> (r: Gate)
        ensures
            r@ == (GateView {
                name: self@.name,
                ports: seq![
                    wire_binding(self@.input, input_wire@),
                    wire_binding(self@.output, output_wire@),
                ],
            }),
    {
        let mut inv_gate = Gate::new_with_name(self.name.clone());
        inv_gate.push_port(PortWire::Wire(self.input.clone(), input_wire));
        inv_gate.push_port(PortWire::Wire(self.output.clone(), output_wire));
        assert(inv_gate@.ports =~= seq![
            wire_binding(self@.input, input_wire@),
            wire_binding(self@.output, output_wire@),
        ]);
        inv_gate
    }
}

/// The views of a cell library.
pub open spec fn library_view(lib: Seq<FFDefinition>) -> Seq<FFView> {
    lib.map_values(|d: FFDefinition| d@)
}

/// `cell` is the name of a flip-flop of the library.
pub open spec fn is_ff_cell(lib: Seq<FFView>, cell: Seq<char>) -> bool {
    exists|d: int| 0 <= d < lib.len() && lib[d].name == cell
}

/// `d` is the first definition of the library named `cell`.
pub open spec fn is_first_def(lib: Seq<FFView>, cell: Seq<char>, d: int) -> bool {
    0 <= d < lib.len() && lib[d].name == cell && forall|e: int| 0 <= e < d ==> lib[e].name != cell
}

/// The library's definition of the flip-flop cell `cell`.
pub open spec fn ff_def_of(lib: Seq<FFView>, cell: Seq<char>) -> FFView {
    lib[choose|d: int| is_first_def(lib, cell, d)]
}

/// The first definition of the cell named `cell` in `lib`.
pub fn find_ff_definition(lib: &Vec<FFDefinition>, cell: &str) -> (r: Option<usize>)
    ensures
        match r {
            Some(d) => is_first_def(library_view(lib@), cell@, d as int)
                && ff_def_of(library_view(lib@), cell@) == library_view(lib@)[d as int],
            None => !is_ff_cell(library_view(lib@), cell@),
        },
{
    let mut d: usize = 0;
    while d < lib.len()
        invariant
            forall|e: int| 0 <= e < d ==> library_view(lib@)[e].name != cell@,
        decreases lib.len() - d,
    {
        if str_eq(lib[d].name.as_str(), cell) {
            proof {
                let lv = library_view(lib@);
                assert(is_first_def(lv, cell@, d as int));
                let k = choose|k: int| is_first_def(lv, cell@, k);
                assert(is_first_def(lv, cell@, k));
                assert(k == d);
            }
            return Some(d);
        }
        d = d + 1;
    }
    None
}

/// The configuration of one expansion run.
#[derive(Clone, Default, Debug)]
pub struct ExpansionConfig {
    pub expand_method: Option<ExpansionMethod>,
    pub input_file: String,
    pub output_file: String,
    pub top_module: String,
    pub clock_pins: Vec<String>,
    pub use_primary_io: bool,
    pub equivalent_check: Vec<Fault>,
    pub ff_definitions: Vec<FFDefinition>,
    pub inv_definition: InvDefinition,
}

/// What an `ExpansionConfig` stands for.
pub struct ConfigView {
    pub expand_method: Option<ExpansionMethod>,
    pub input_file: Seq<char>,
    pub output_file: Seq<char>,
    pub top_module: Seq<char>,
    pub clock_pins: Seq<Seq<char>>,
    pub use_primary_io: bool,
    pub equivalent_check: Seq<(Seq<char>, bool)>,
    pub ff_definitions: Seq<FFView>,
    pub inv_definition: InvView,
}

impl View for ExpansionConfig {
    type V = ConfigView;

    open spec fn view(&self) -> ConfigView {
        ConfigView {
            expand_method: self.expand_method,
            input_file: self.input_file@,
            output_file: self.output_file@,
            top_module: self.top_module@,
            clock_pins: string_views(self.clock_pins@),
            use_primary_io: self.use_primary_io,
            equivalent_check: crate::atpg::faults_view(self.equivalent_check@),
            ff_definitions: library_view(self.ff_definitions@),
            inv_definition: self.inv_definition@,
        }
    }
}

impl ExpansionConfig {
    pub fn expand_method(&self) -> (r: &Option<ExpansionMethod>)
        ensures
            *r == self.expand_method,
    {
        &self.expand_method
    }

    pub fn input_file(&self) -> (r: &str)
        ensures
            r@ == self.input_file@,
    {
        self.input_file.as_str()
    }

    pub fn output_file(&self) -> (r: &str)
        ensures
            r@ == self.output_file@,
    {
        self.output_file.as_str()
    }

    pub fn top_module(&self) -> (r: &str)
        ensures
            r@ == self.top_module@,
    {
        self.top_module.as_str()
    }

    pub fn clock_pins(&self) -> (r: &Vec<String>)
        ensures
            r@ == self.clock_pins@,
    {
        &self.clock_pins
    }

    pub fn use_primary_io(&self) -> (r: bool)
        ensures
            r == self.use_primary_io,
    {
        self.use_primary_io
    }

    pub fn equivalent_check(&self) -> (r: &Vec<Fault>)
        ensures
            r@ == self.equivalent_check@,
    {
        &self.equivalent_check
    }

    pub fn ff_definitions(&self) -> (r: &Vec<FFDefinition>)
        ensures
            r@ == self.ff_definitions@,
    {
        &self.ff_definitions
    }

    pub fn inv_definition(&self) -> (r: &InvDefinition)
        ensures
            r == &self.inv_definition,
    {
        &self.inv_definition
    }
}

/// A syntax error inside an `ff { ... }` block.
#[derive(Debug)]
pub enum FFDefinitionError {
    UndefinedOption(String),
}

/// A syntax error inside an `inv { ... }` block.
#[derive(Debug)]
pub enum InvDefinitionError {
    UndefinedOption(String),
}

/// A semantic error in a configuration.
#[derive(Debug, Clone, Copy, PartialEq, Eq, Structural)]
pub enum ExpansionConfigVerificationError {
    /// No expansion method is given.
    UnspecifiedExpansionMethod,
    /// The expansion method is known but not implemented (skewed load).
    UnsupportedExpansionMethod,
    /// No input netlist is given.
    NoInputFile,
    /// No output netlist is given.
    NoOutputFile,
    /// No flip-flop cell is defined.
    UnspecifiedFFGate,
    /// No complete inverter cell is defined.
    UnspecifiedInvGate,
    /// No top module is given.
    UnspecifiedTopModule,
    /// The fault list does not have the shape that the expansion needs.
    MalformedFaultSet,
}

/// The errors of the expansion pipeline.
#[derive(Debug)]
pub enum ExpansionConfigError {
    ConfigSyntaxError(String),
    ConfigVerificationError(ExpansionConfigVerificationError),
    ConfigIsUnsatisfied(String),
    TopModuleMissing(String),
    FFDefinitionError(FFDefinitionError),
    InvDefinitionError(InvDefinitionError),
    ModuleError(ModuleError),
    VerilogError(VerilogError),
}


/// What capture group `group` of `pattern` takes in the leftmost match of `pattern` in `line`;
/// none where the pattern does not compile or match, or the group takes no part in the match.
pub uninterp spec fn regex_capture(pattern: Seq<char>, line: Seq<char>, group: nat) -> Option<Seq<char>>;

/// Relies on `regex::Regex::new`, `Regex::captures`, `Captures::get` and `Match::as_str`:
/// the text that capture group `group` of `pattern` takes in its leftmost match in `line`.
/// That text is a piece of `line`.
#[verifier::external_body]
fn capture(pattern: &str, line: &str, group: usize) -> (r: Option<String>)
    ensures
        match r {
            Some(c) => regex_capture(pattern@, line@, group as nat) == Some(c@) && seq_contains(line@, c@),
            None => regex_capture(pattern@, line@, group as nat) is None,
        },
{
    let re = match regex::Regex::new(pattern) {
        Ok(re) => re,
        Err(_) => return None,
    };
    let caps = re.captures(line)?;
    let m = caps.get(group)?;
    Some(m.as_str().to_string())
}

/// The lowercase form of `s`, as Unicode defines it.
pub uninterp spec fn lower_of(s: Seq<char>) -> Seq<char>;

/// Relies on `str::to_lowercase`: the lowercase form depends on the characters alone.
#[verifier::external_body]
fn lowercase(s: &str) -> (r: String)
    ensures
        r@ == lower_of(s@),
{
    s.to_lowercase()
}

/// The expansion method named `m` (already in lowercase).
pub open spec fn method_of(m: Seq<char>) -> Option<ExpansionMethod> {
    if m == "broadside"@ || m == "bs"@ || m == "loc"@ {
        Some(ExpansionMethod::Broadside)
    } else if m == "skewedload"@ || m == "sl"@ || m == "los"@ {
        Some(ExpansionMethod::SkewedLoad)
    } else {
        None
    }
}

impl ExpansionMethod {
    /// The method named by the lowercase name `method`.
    pub fn from_lowered(method: &str) -> (r: Option<Self>)
        ensures
            r == method_of(method@),
    {
        if str_eq(method, "broadside") || str_eq(method, "bs") || str_eq(method, "loc") {
            Some(ExpansionMethod::Broadside)
        } else if str_eq(method, "skewedload") || str_eq(method, "sl") || str_eq(method, "los") {
            Some(ExpansionMethod::SkewedLoad)
        } else {
            None
        }
    }

    /// The method named `method`, in any case: `broadside`, `bs` or `loc`; `skewedload`,
    /// `sl` or `los`.
    pub fn from_string(method: &str) -> (r: Option<Self>)
        ensures
            r == method_of(lower_of(method@)),
    {
        let lowered = lowercase(method);
        Self::from_lowered(lowered.as_str())
    }
}

/// The outcome of checking a configuration.
pub open spec fn verification_of(c: ConfigView) -> Result<(), ExpansionConfigVerificationError> {
    if c.expand_method is None {
        Err(ExpansionConfigVerificationError::UnspecifiedExpansionMethod)
    } else if c.expand_method == Some(ExpansionMethod::SkewedLoad) {
        Err(ExpansionConfigVerificationError::UnsupportedExpansionMethod)
    } else if c.input_file.len() == 0 {
        Err(ExpansionConfigVerificationError::NoInputFile)
    } else if c.output_file.len() == 0 {
        Err(ExpansionConfigVerificationError::NoOutputFile)
    } else if c.top_module.len() == 0 {
        Err(ExpansionConfigVerificationError::UnspecifiedTopModule)
    } else if c.ff_definitions.len() == 0 {
        Err(ExpansionConfigVerificationError::UnspecifiedFFGate)
    } else if c.inv_definition.name.len() == 0 || c.inv_definition.input.len() == 0
        || c.inv_definition.output.len() == 0 {
        Err(ExpansionConfigVerificationError::UnspecifiedInvGate)
    } else {
        Ok(())
    }
}

/// The configuration with nothing set.
pub open spec fn empty_config() -> ConfigView {
    ConfigView {
        expand_method: None,
        input_file: Seq::empty(),
        output_file: Seq::empty(),
        top_module: Seq::empty(),
        clock_pins: Seq::empty(),
        use_primary_io: false,
        equivalent_check: Seq::empty(),
        ff_definitions: Seq::empty(),
        inv_definition: empty_inv(),
    }
}

/// Each line without its comment.
pub open spec fn uncommented_lines(lines: Seq<Seq<char>>) -> Seq<Seq<char>> {
    lines.map_values(|l: Seq<char>| uncommented(l))
}

/// The text before the first `#` of `line`.
pub open spec fn uncommented(line: Seq<char>) -> Seq<char> {
    if line.contains('#') {
        line.subrange(0, choose|e: int| 0 <= e < line.len() && line[e] == '#' && forall|j: int|
            0 <= j < e ==> line[j] != '#')
    } else {
        line
    }
}

/// `line` without its comment.
pub fn strip_comment(line: &str) -> (r: String)
    ensures
        r@ == uncommented(line@),
{
    match find_char(line, '#', 0) {
        Some(e) => {
            proof {
                let k = choose|k: int| 0 <= k < line@.len() && line@[k] == '#' && forall|j: int|
                    0 <= j < k ==> line@[j] != '#';
                assert(line@.contains('#')) by {
                    assert(line@[e as int] == '#');
                }
                assert(0 <= k < line@.len() && line@[k] == '#' && forall|j: int| 0 <= j < k ==> line@[j] != '#');
                assert(k == e);
            }
            slice(line, 0, e)
        },
        None => {
            proof {
                assert(!line@.contains('#')) by {
                    assert forall|j: int| 0 <= j < line@.len() implies line@[j] != '#' by {}
                }
            }
            String::from_str(line)
        },
    }
}

/// The position of the first comma of `s`, or its length where there is none.
pub open spec fn first_comma(s: Seq<char>) -> int
    decreases s.len(),
{
    if s.len() == 0 {
        0
    } else if s[0] == ',' {
        0
    } else {
        1 + first_comma(s.subrange(1, s.len() as int))
    }
}

/// The pieces of `s` between commas, each trimmed of spaces.
pub open spec fn comma_pieces(s: Seq<char>) -> Seq<Seq<char>>
    decreases s.len(),
{
    let e = first_comma(s);
    if 0 <= e < s.len() {
        seq![trim(s.subrange(0, e))] + comma_pieces(s.subrange(e + 1, s.len() as int))
    } else {
        seq![trim(s)]
    }
}

/// `first_comma` finds the first comma.
proof fn lemma_first_comma(t: Seq<char>, k: int)
    requires
        0 <= k <= t.len(),
        k < t.len() ==> t[k] == ',',
        forall|j: int| 0 <= j < k ==> t[j] != ',',
    ensures
        first_comma(t) == k,
    decreases k,
{
    if k > 0 {
        let t1 = t.subrange(1, t.len() as int);
        assert forall|j: int| 0 <= j < k - 1 implies t1[j] != ',' by {
            assert(t1[j] == t[j + 1]);
        }
        if k < t.len() {
            assert(t1[k - 1] == t[k]);
        }
        lemma_first_comma(t1, k - 1);
    }
}

/// The pieces of `s` between commas, each trimmed of spaces.
pub fn split_commas(s: &str) -> (r: Vec<String>)
    ensures
        string_views(r@) == comma_pieces(s@),
{
    let n = s.unicode_len();
    let mut r: Vec<String> = Vec::new();
    let mut start: usize = 0;
    assert(string_views(r@) + comma_pieces(s@.subrange(0, n as int)) =~= comma_pieces(s@)) by {
        assert(s@.subrange(0, n as int) =~= s@);
        assert(string_views(r@) =~= Seq::<Seq<char>>::empty());
    }
    loop
        invariant_except_break
            string_views(r@) + comma_pieces(s@.subrange(start as int, n as int)) == comma_pieces(s@),
        invariant
            n == s@.len(),
            start <= n,
        ensures
            string_views(r@) == comma_pieces(s@),
        decreases n - start,
    {
        let ghost t = s@.subrange(start as int, n as int);
        let ghost before = string_views(r@);
        match find_char(s, ',', start) {
            Some(e) => {
                proof {
                    assert forall|j: int| 0 <= j < e - start implies t[j] != ',' by {
                        assert(t[j] == s@[start + j]);
                    }
                    assert(t[e - start] == s@[e as int]);
                    lemma_first_comma(t, e - start);
                    assert(t.subrange(0, e - start) =~= s@.subrange(start as int, e as int));
                    assert(t.subrange(e - start + 1, t.len() as int) =~= s@.subrange(e + 1, n as int));
                }
                let piece = trim_spaces(slice(s, start, e).as_str());
                r.push(piece);
                assert(string_views(r@) =~= before.push(piece@));
                assert(comma_pieces(t) == seq![piece@] + comma_pieces(s@.subrange(e + 1, n as int)));
                assert(string_views(r@) + comma_pieces(s@.subrange(e + 1, n as int)) =~= before + comma_pieces(t));
                start = e + 1;
            },
            None => {
                proof {
                    assert forall|j: int| 0 <= j < t.len() implies t[j] != ',' by {
                        assert(t[j] == s@[start + j]);
                    }
                    lemma_first_comma(t, t.len() as int);
                }
                let piece = trim_spaces(slice(s, start, n).as_str());
                r.push(piece);
                assert(string_views(r@) =~= before.push(piece@));
                assert(comma_pieces(t) == seq![piece@]);
                assert(string_views(r@) =~= before + comma_pieces(t));
                break;
            },
        }
    }
    r
}

/// The message of a syntax error at line `i` (counted from zero).
pub open spec fn syntax_message(i: int) -> Seq<char> {
    "Syntax Error at line "@ + crate::text::decimal((i + 1) as nat)
}

/// A line of whitespace only.
pub open spec fn blank(line: Seq<char>) -> bool {
    regex_capture(r"^(\s*)$"@, line, 1) is Some
}

/// The empty flip-flop definition.
pub open spec fn empty_ff() -> FFView {
    FFView { name: Seq::empty(), data_in: Seq::empty(), data_out: Seq::empty(), control: Seq::empty() }
}

/// Reading the body of an `ff { ... }` block from line `i` on into `acc`: the definition and
/// the line after the block, or the line that holds an unknown option.
pub open spec fn ff_block(lines: Seq<Seq<char>>, i: int, acc: FFView) -> Result<(FFView, int), int>
    decreases lines.len() - i,
{
    if i < 0 || i >= lines.len() {
        Ok((acc, lines.len() as int))
    } else if lines[i].contains('}') {
        Ok((acc, i + 1))
    } else {
        match regex_capture(r"\s*data-in\s+(.+)\s*"@, lines[i], 1) {
            Some(cap) => ff_block(lines, i + 1, FFView { data_in: acc.data_in + comma_pieces(cap), ..acc }),
            None => match regex_capture(r"\s*data-out\s+(.+)\s*"@, lines[i], 1) {
                Some(cap) => ff_block(lines, i + 1, FFView { data_out: acc.data_out + comma_pieces(cap), ..acc }),
                None => match regex_capture(r"\s*control\s+(.+)\s*"@, lines[i], 1) {
                    Some(cap) => ff_block(lines, i + 1, FFView { control: acc.control + comma_pieces(cap), ..acc }),
                    None => if blank(lines[i]) {
                        ff_block(lines, i + 1, acc)
                    } else {
                        Err(i)
                    },
                },
            },
        }
    }
}

/// The inverter definition with nothing set.
pub open spec fn empty_inv() -> InvView {
    InvView { name: Seq::empty(), input: Seq::empty(), output: Seq::empty() }
}

/// Reading the body of an `inv { ... }` block from line `i` on into `acc`, as `ff_block` does.
pub open spec fn inv_block(lines: Seq<Seq<char>>, i: int, acc: InvView) -> Result<(InvView, int), int>
    decreases lines.len() - i,
{
    if i < 0 || i >= lines.len() {
        Ok((acc, lines.len() as int))
    } else if lines[i].contains('}') {
        Ok((acc, i + 1))
    } else {
        match regex_capture(r"\s*input\s+(\w+)\s*"@, lines[i], 1) {
            Some(cap) => inv_block(lines, i + 1, InvView { input: trim(cap), ..acc }),
            None => match regex_capture(r"\s*output\s+(\w+)\s*"@, lines[i], 1) {
                Some(cap) => inv_block(lines, i + 1, InvView { output: trim(cap), ..acc }),
                None => if blank(lines[i]) {
                    inv_block(lines, i + 1, acc)
                } else {
                    Err(i)
                },
            },
        }
    }
}

/// The message of a syntax error at line `i` (from zero).
fn syntax_error_at(i: usize) -> (r: String)
    requires
        i < usize::MAX,
    ensures
        r@ == syntax_message(i as int),
{
    let n = to_decimal(i + 1);
    concat("Syntax Error at line ", n.as_str())
}

/// Whether `line` holds only whitespace.
fn is_blank(line: &str) -> (r: bool)
    ensures
        r == blank(line@),
{
    capture(r"^(\s*)$", line, 1).is_some()
}

impl FFDefinition {
    /// Reads the body of an `ff { ... }` block from line `start` on, up to the line that holds
    /// `}`; returns the definition (without its name) and the line after the block.
    pub fn from_file_iter(lines: &Vec<String>, start: usize) -> (r: Result<(Self, usize), FFDefinitionError>)
        ensures
            r matches Ok((_, next)) ==> start <= next && next <= lines@.len() || start > lines@.len(),
            r is Ok <==> ff_block(string_views(lines@), start as int, empty_ff()) is Ok,
            r matches Ok((d, next)) ==> ff_block(string_views(lines@), start as int, empty_ff())
                == Ok::<(FFView, int), int>((d@, next as int)),
            r matches Err(FFDefinitionError::UndefinedOption(m)) ==> (ff_block(
                string_views(lines@),
                start as int,
                empty_ff(),
            ) matches Err(j) && m@ == syntax_message(j)),
    {
        let ghost lv = string_views(lines@);
        let mut ff_defines = FFDefinition {
            name: String::new(),
            data_in: Vec::new(),
            data_out: Vec::new(),
            control: Vec::new(),
        };
        assert(ff_defines@.data_in =~= Seq::<Seq<char>>::empty());
        assert(ff_defines@.data_out =~= Seq::<Seq<char>>::empty());
        assert(ff_defines@.control =~= Seq::<Seq<char>>::empty());
        assert(ff_defines@ == empty_ff());
        let mut i = start;
        while i < lines.len()
            invariant
                lv == string_views(lines@),
                start <= i,
                ff_block(lv, start as int, empty_ff()) == ff_block(lv, i as int, ff_defines@),
            decreases lines.len() - i,
        {
            let line = lines[i].as_str();
            assert(lv[i as int] == line@);
            let at = i;
            i = i + 1;
            if contains_char(line, '}') {
                assert(ff_block(lv, at as int, ff_defines@) == Ok::<(FFView, int), int>((ff_defines@, i as int)));
                return Ok((ff_defines, i));
            }
            let ghost acc = ff_defines@;
            if let Some(cap) = capture(r"\s*data-in\s+(.+)\s*", line, 1) {
                let mut pieces = split_commas(cap.as_str());
                let ghost pv = string_views(pieces@);
                let ghost before = ff_defines.data_in@;
                ff_defines.data_in.append(&mut pieces);
                assert(string_views(ff_defines.data_in@) =~= string_views(before) + pv);
                assert(ff_defines@ == FFView { data_in: acc.data_in + comma_pieces(cap@), ..acc });
            } else if let Some(cap) = capture(r"\s*data-out\s+(.+)\s*", line, 1) {
                let mut pieces = split_commas(cap.as_str());
                let ghost pv = string_views(pieces@);
                let ghost before = ff_defines.data_out@;
                ff_defines.data_out.append(&mut pieces);
                assert(string_views(ff_defines.data_out@) =~= string_views(before) + pv);
                assert(ff_defines@ == FFView { data_out: acc.data_out + comma_pieces(cap@), ..acc });
            } else if let Some(cap) = capture(r"\s*control\s+(.+)\s*", line, 1) {
                let mut pieces = split_commas(cap.as_str());
                let ghost pv = string_views(pieces@);
                let ghost before = ff_defines.control@;
                ff_defines.control.append(&mut pieces);
                assert(string_views(ff_defines.control@) =~= string_views(before) + pv);
                assert(ff_defines@ == FFView { control: acc.control + comma_pieces(cap@), ..acc });
            } else if !is_blank(line) {
                return Err(FFDefinitionError::UndefinedOption(syntax_error_at(at)));
            }
        }
        if i > lines.len() {
            i = lines.len();
        }
        Ok((ff_defines, i))
    }
}

impl InvDefinition {
    /// Reads the body of an `inv { ... }` block from line `start` on, up to the line that holds
    /// `}`; returns the definition (without its name) and the line after the block.
    pub fn from_file_iter(lines: &Vec<String>, start: usize) -> (r: Result<(Self, usize), InvDefinitionError>)
        ensures
            r matches Ok((_, next)) ==> start <= next && next <= lines@.len() || start > lines@.len(),
            r is Ok <==> inv_block(string_views(lines@), start as int, empty_inv()) is Ok,
            r matches Ok((d, next)) ==> inv_block(string_views(lines@), start as int, empty_inv())
                == Ok::<(InvView, int), int>((d@, next as int)),
            r matches Err(InvDefinitionError::UndefinedOption(m)) ==> (inv_block(
                string_views(lines@),
                start as int,
                empty_inv(),
            ) matches Err(j) && m@ == syntax_message(j)),
    {
        let ghost lv = string_views(lines@);
        let mut inv_defines = InvDefinition { name: String::new(), input: String::new(), output: String::new() };
        let mut i = start;
        while i < lines.len()
            invariant
                lv == string_views(lines@),
                start <= i,
                inv_block(lv, start as int, empty_inv()) == inv_block(lv, i as int, inv_defines@),
            decreases lines.len() - i,
        {
            let line = lines[i].as_str();
            assert(lv[i as int] == line@);
            let at = i;
            i = i + 1;
            if contains_char(line, '}') {
                assert(inv_block(lv, at as int, inv_defines@) == Ok::<(InvView, int), int>((inv_defines@, i as int)));
                return Ok((inv_defines, i));
            }
            if let Some(cap) = capture(r"\s*input\s+(\w+)\s*", line, 1) {
                inv_defines.input = trim_spaces(cap.as_str());
            } else if let Some(cap) = capture(r"\s*output\s+(\w+)\s*", line, 1) {
                inv_defines.output = trim_spaces(cap.as_str());
            } else if !is_blank(line) {
                return Err(InvDefinitionError::UndefinedOption(syntax_error_at(at)));
            }
        }
        if i > lines.len() {
            i = lines.len();
        }
        Ok((inv_defines, i))
    }
}

/// The fault that a fault line `str|stf instance/port wire-path` names: its location is the
/// third field, and `stf` means a stuck-at-one fault.
pub open spec fn fault_spec(line: Seq<char>) -> Option<(Seq<char>, bool)> {
    match (regex_capture(r"\s*(st[rf])\s+(\S+)\s+(\S+).*"@, line, 1), regex_capture(
        r"\s*(st[rf])\s+(\S+)\s+(\S+).*"@,
        line,
        3,
    )) {
        (Some(kind), Some(location)) => Some((location, kind == "stf"@)),
        _ => None,
    }
}

/// Reading fault lines from line `i` on after `faults`, up to and including the first line
/// that is none: the faults and the line after.
pub open spec fn fault_block(lines: Seq<Seq<char>>, i: int, faults: Seq<(Seq<char>, bool)>) -> (
    Seq<(Seq<char>, bool)>,
    int,
)
    decreases lines.len() - i,
{
    if i < 0 || i >= lines.len() {
        (faults, lines.len() as int)
    } else {
        match fault_spec(lines[i]) {
            Some(f) => fault_block(lines, i + 1, faults.push(f)),
            None => (faults, i + 1),
        }
    }
}

/// Reading the directives of `lines` from line `i` on into `c`: the configuration, or the
/// line of the first syntax error.
pub open spec fn config_lines(lines: Seq<Seq<char>>, i: int, c: ConfigView) -> Result<ConfigView, int>
    decreases lines.len() - i, 1int,
{
    if i < 0 || i >= lines.len() {
        Ok(c)
    } else {
        let l = lines[i];
        match regex_capture(r"\s*expansion-method\s+(\S+)\s*"@, l, 1) {
            Some(m) => config_lines(lines, i + 1, ConfigView { expand_method: method_of(lower_of(m)), ..c }),
            None => match regex_capture(r"\s*input-verilog\s+(\S+)\s*"@, l, 1) {
                Some(f) => config_lines(lines, i + 1, ConfigView { input_file: f, ..c }),
                None => match regex_capture(r"\s*output-verilog\s+(\S+)\s*"@, l, 1) {
                    Some(f) => config_lines(lines, i + 1, ConfigView { output_file: f, ..c }),
                    None => match regex_capture(r"\s*top-module\s+(\S+)\s*"@, l, 1) {
                        Some(t) => config_lines(lines, i + 1, ConfigView { top_module: t, ..c }),
                        None => match regex_capture(r"\s*clock-pins\s+(.+)\s*"@, l, 1) {
                            Some(p) => config_lines(lines, i + 1, ConfigView { clock_pins: c.clock_pins + comma_pieces(p), ..c }),
                            None => match regex_capture(r"\s*use-primary-io\s+(.+)\s*"@, l, 1) {
                                Some(v) => config_lines(lines, i + 1, ConfigView { use_primary_io: lower_of(trim(v)) != "no"@, ..c }),
                                None => config_block_lines(lines, i, c),
                            },
                        },
                    },
                },
            },
        }
    }
}

/// `config_lines` at a line that is no single-value directive.
pub open spec fn config_block_lines(lines: Seq<Seq<char>>, i: int, c: ConfigView) -> Result<ConfigView, int>
    decreases lines.len() - i, 0int,
{
    if i < 0 || i >= lines.len() {
        Ok(c)
    } else {
        let l = lines[i];
        if regex_capture(r"\s*equivalent-check\s*(\{).*"@, l, 1) is Some {
            let (fs, next) = fault_block(lines, i + 1, c.equivalent_check);
            if i < next <= lines.len() {
                config_lines(lines, next, ConfigView { equivalent_check: fs, ..c })
            } else {
                Ok(c)
            }
        } else {
            match regex_capture(r"\s*equivalent-check\s+(.+)\s*"@, l, 1) {
                Some(x) => match fault_spec(x) {
                    Some(f) => config_lines(lines, i + 1, ConfigView { equivalent_check: c.equivalent_check.push(f), ..c }),
                    None => Err(i),
                },
                None => match regex_capture(r"\s*ff\s+([^{]+)\s*\{.*"@, l, 1) {
                    Some(n) => match ff_block(lines, i + 1, empty_ff()) {
                        Ok((d, next)) => if i < next <= lines.len() {
                            config_lines(lines, next, ConfigView {
                                ff_definitions: c.ff_definitions.push(FFView { name: trim(n), ..d }),
                                ..c
                            })
                        } else {
                            Ok(c)
                        },
                        Err(j) => Err(j),
                    },
                    None => match regex_capture(r"\s*inv\s+([^{]+)\s*\{.*"@, l, 1) {
                        Some(n) => match inv_block(lines, i + 1, empty_inv()) {
                            Ok((d, next)) => if i < next <= lines.len() {
                                config_lines(lines, next, ConfigView { inv_definition: InvView { name: trim(n), ..d }, ..c })
                            } else {
                                Ok(c)
                            },
                            Err(j) => Err(j),
                        },
                        None => if blank(l) {
                            config_lines(lines, i + 1, c)
                        } else {
                            Err(i)
                        },
                    },
                },
            }
        }
    }
}

/// The fault named by a fault line `str|stf instance/port wire-path`: its location is the
/// third field, and `stf` means a stuck-at-one fault.
pub fn fault_from_fields(kind: &str, location: String) -> (r: Fault)
    ensures
        r.location@ == location@,
        r.sa_value == (kind@ == "stf"@),
{
    Fault::new(location, str_eq(kind, "stf"))
}

/// The value of a lowercased `use-primary-io` argument: anything but `no` means yes.
pub fn primary_io_from(lowered: &str) -> (r: bool)
    ensures
        r == (lowered@ != "no"@),
{
    !str_eq(lowered, "no")
}

/// The fault named by a fault line `str|stf instance/port wire-path`: its location is the
/// third field, and `stf` means a stuck-at-one fault.
pub fn fault_of_line(line: &str) -> (r: Option<Fault>)
    ensures
        match r {
            Some(f) => fault_spec(line@) == Some((f.location@, f.sa_value)),
            None => fault_spec(line@) is None,
        },
{
    let kind = capture(r"\s*(st[rf])\s+(\S+)\s+(\S+).*", line, 1);
    let location = capture(r"\s*(st[rf])\s+(\S+)\s+(\S+).*", line, 3);
    match (kind, location) {
        (Some(kind), Some(location)) => Some(fault_from_fields(kind.as_str(), location)),
        _ => None,
    }
}

impl ExpansionConfig {
    /// An empty configuration.
    pub fn new() -> (r: Self)
        ensures
            r@ == empty_config(),
    {
        let r = ExpansionConfig {
            expand_method: None,
            input_file: String::new(),
            output_file: String::new(),
            top_module: String::new(),
            clock_pins: Vec::new(),
            use_primary_io: false,
            equivalent_check: Vec::new(),
            ff_definitions: Vec::new(),
            inv_definition: InvDefinition { name: String::new(), input: String::new(), output: String::new() },
        };
        assert(r@.clock_pins =~= Seq::<Seq<char>>::empty());
        assert(r@.equivalent_check =~= Seq::<(Seq<char>, bool)>::empty());
        assert(r@.ff_definitions =~= Seq::<FFView>::empty());
        r
    }

    /// Reads the directives of `lines` (comments already removed) into this configuration.
    pub fn parse_lines(&mut self, lines: &Vec<String>) -> (r: Result<(), ExpansionConfigError>)
        ensures
            r is Ok <==> config_lines(string_views(lines@), 0, old(self)@) is Ok,
            r is Ok ==> config_lines(string_views(lines@), 0, old(self)@) == Ok::<ConfigView, int>(final(self)@),
            !(r matches Err(ExpansionConfigError::ConfigVerificationError(_))),
    {
        let ghost lv = string_views(lines@);
        let mut i: usize = 0;
        while i < lines.len()
            invariant
                lv == string_views(lines@),
                i <= lines@.len(),
                config_lines(lv, 0, old(self)@) == config_lines(lv, i as int, self@),
            decreases lines.len() - i,
        {
            let line = lines[i].as_str();
            assert(lv[i as int] == line@);
            let at = i;
            i = i + 1;
            let ghost c = self@;
            if let Some(cap) = capture(r"\s*expansion-method\s+(\S+)\s*", line, 1) {
                self.expand_method = ExpansionMethod::from_string(cap.as_str());
                assert(self@ == ConfigView { expand_method: method_of(lower_of(cap@)), ..c });
            } else if let Some(cap) = capture(r"\s*input-verilog\s+(\S+)\s*", line, 1) {
                self.input_file = cap;
            } else if let Some(cap) = capture(r"\s*output-verilog\s+(\S+)\s*", line, 1) {
                self.output_file = cap;
            } else if let Some(cap) = capture(r"\s*top-module\s+(\S+)\s*", line, 1) {
                self.top_module = cap;
            } else if let Some(cap) = capture(r"\s*clock-pins\s+(.+)\s*", line, 1) {
                let mut pins = split_commas(cap.as_str());
                let ghost pv = string_views(pins@);
                let ghost before = self.clock_pins@;
                self.clock_pins.append(&mut pins);
                assert(string_views(self.clock_pins@) =~= string_views(before) + pv);
                assert(self@ == ConfigView { clock_pins: c.clock_pins + comma_pieces(cap@), ..c });
            } else if let Some(cap) = capture(r"\s*use-primary-io\s+(.+)\s*", line, 1) {
                let value = lowercase(trim_spaces(cap.as_str()).as_str());
                self.use_primary_io = primary_io_from(value.as_str());
                assert(self@ == ConfigView { use_primary_io: lower_of(trim(cap@)) != "no"@, ..c });
            } else {
                assert(config_lines(lv, at as int, c) == config_block_lines(lv, at as int, c));
                if capture(r"\s*equivalent-check\s*(\{).*", line, 1).is_some() {
                    loop
                        invariant_except_break
                            fault_block(lv, at + 1, c.equivalent_check) == fault_block(lv, i as int, self@.equivalent_check),
                        invariant
                            lv == string_views(lines@),
                            at < i <= lines@.len(),
                            self@ == (ConfigView { equivalent_check: self@.equivalent_check, ..c }),
                        ensures
                            at < i <= lines@.len(),
                            self@ == (ConfigView { equivalent_check: self@.equivalent_check, ..c }),
                            fault_block(lv, at + 1, c.equivalent_check) == (self@.equivalent_check, i as int),
                        decreases lines.len() - i,
                    {
                        if i >= lines.len() {
                            break;
                        }
                        let fault_line = lines[i].as_str();
                        assert(lv[i as int] == fault_line@);
                        i = i + 1;
                        match fault_of_line(fault_line) {
                            Some(f) => {
                                let ghost fv = (f.location@, f.sa_value);
                                let ghost before = self.equivalent_check@;
                                self.equivalent_check.push(f);
                                assert(crate::atpg::faults_view(self.equivalent_check@)
                                    =~= crate::atpg::faults_view(before).push(fv));
                            },
                            None => {
                                break;
                            },
                        }
                    }
                } else if let Some(cap) = capture(r"\s*equivalent-check\s+(.+)\s*", line, 1) {
                    match fault_of_line(cap.as_str()) {
                        Some(f) => {
                            let ghost fv = (f.location@, f.sa_value);
                            let ghost before = self.equivalent_check@;
                            self.equivalent_check.push(f);
                            assert(crate::atpg::faults_view(self.equivalent_check@)
                                =~= crate::atpg::faults_view(before).push(fv));
                            assert(self@ == ConfigView { equivalent_check: c.equivalent_check.push(fv), ..c });
                        },
                        None => {
                            return Err(ExpansionConfigError::ConfigSyntaxError(concat(
                                "Error: Equivalent check fault syntax Error at line ",
                                to_decimal(at + 1).as_str(),
                            )));
                        },
                    }
                } else if let Some(cap) = capture(r"\s*ff\s+([^{]+)\s*\{.*", line, 1) {
                    match FFDefinition::from_file_iter(lines, i) {
                        Ok((mut ff_define, next)) => {
                            let ghost dv = ff_define@;
                            ff_define.name = trim_spaces(cap.as_str());
                            let ghost nv = ff_define@;
                            let ghost before = self.ff_definitions@;
                            self.ff_definitions.push(ff_define);
                            assert(library_view(self.ff_definitions@) =~= library_view(before).push(nv));
                            assert(nv == FFView { name: trim(cap@), ..dv });
                            assert(at < next && next <= lines@.len());
                            i = next;
                        },
                        Err(e) => {
                            return Err(ExpansionConfigError::FFDefinitionError(e));
                        },
                    }
                } else if let Some(cap) = capture(r"\s*inv\s+([^{]+)\s*\{.*", line, 1) {
                    match InvDefinition::from_file_iter(lines, i) {
                        Ok((mut inv_define, next)) => {
                            inv_define.name = trim_spaces(cap.as_str());
                            self.inv_definition = inv_define;
                            assert(at < next && next <= lines@.len());
                            i = next;
                        },
                        Err(e) => {
                            return Err(ExpansionConfigError::InvDefinitionError(e));
                        },
                    }
                } else if !is_blank(line) {
                    return Err(ExpansionConfigError::ConfigSyntaxError(concat(
                        "Error: Undefined Option. Syntax Error at line ",
                        to_decimal(at + 1).as_str(),
                    )));
                }
            }
        }
        Ok(())
    }

    /// Checks that the configuration names a supported method, the files, the top module,
    /// at least one flip-flop cell and a complete inverter cell.
    pub fn verification(&self) -> (r: Result<(), ExpansionConfigVerificationError>)
        ensures
            r == verification_of(self@),
    {
        match self.expand_method {
            None => Err(ExpansionConfigVerificationError::UnspecifiedExpansionMethod),
            Some(ExpansionMethod::SkewedLoad) => Err(ExpansionConfigVerificationError::UnsupportedExpansionMethod),
            Some(ExpansionMethod::Broadside) => {
                if self.input_file.as_str().unicode_len() == 0 {
                    Err(ExpansionConfigVerificationError::NoInputFile)
                } else if self.output_file.as_str().unicode_len() == 0 {
                    Err(ExpansionConfigVerificationError::NoOutputFile)
                } else if self.top_module.as_str().unicode_len() == 0 {
                    Err(ExpansionConfigVerificationError::UnspecifiedTopModule)
                } else if self.ff_definitions.len() == 0 {
                    Err(ExpansionConfigVerificationError::UnspecifiedFFGate)
                } else if self.inv_definition.is_empty() {
                    Err(ExpansionConfigVerificationError::UnspecifiedInvGate)
                } else {
                    Ok(())
                }
            },
        }
    }

    /// The configuration that the lines of a configuration file describe; `#` starts a
    /// comment. Fails on a syntax error or where the configuration is incomplete.
    pub fn from_lines(lines: &Vec<String>) -> (r: Result<Self, ExpansionConfigError>)
        ensures
            match config_lines(uncommented_lines(string_views(lines@)), 0, empty_config()) {
                Ok(cv) => match verification_of(cv) {
                    Ok(()) => r matches Ok(c) && c@ == cv,
                    Err(e) => r matches Err(ExpansionConfigError::ConfigVerificationError(e2)) && e2 == e,
                },
                Err(_) => r is Err && !(r matches Err(ExpansionConfigError::ConfigVerificationError(_))),
            },
    {
        let ghost uv = uncommented_lines(string_views(lines@));
        let mut stripped: Vec<String> = Vec::new();
        let mut i: usize = 0;
        while i < lines.len()
            invariant
                i <= lines@.len(),
                stripped@.len() == i,
                forall|k: int| 0 <= k < i ==> stripped@[k]@ == uncommented(lines@[k]@),
            decreases lines.len() - i,
        {
            stripped.push(strip_comment(lines[i].as_str()));
            i = i + 1;
        }
        assert(string_views(stripped@) =~= uv);
        let mut config = Self::new();
        match config.parse_lines(&stripped) {
            Ok(()) => {},
            Err(e) => {
                return Err(e);
            },
        }
        match config.verification() {
            Ok(()) => Ok(config),
            Err(e) => Err(ExpansionConfigError::ConfigVerificationError(e)),
        }
    }
}


/// Read access to the configuration that a pipeline artifact was built under.
pub trait ConfiguredTrait {
    /// The configuration.
    spec fn spec_cfg(&self) -> ExpansionConfig;

    /// The configuration.
    fn cfg_ref(&self) -> (r: &ExpansionConfig)
        ensures
            *r == self.spec_cfg(),
    ;
}

impl ConfiguredTrait for ExpansionConfig {
    open spec fn spec_cfg(&self) -> ExpansionConfig {
        *self
    }

    fn cfg_ref(&self) -> (r: &ExpansionConfig) {
        self
    }
}

} // verus!
