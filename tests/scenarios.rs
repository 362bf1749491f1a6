use time_expansion::broadside::{BroadSideExpansionATPGModel, BroadSideExpansionModel};
use time_expansion::config::{
    ExpansionConfig, ExpansionConfigError, ExpansionConfigVerificationError, ExpansionMethod,
};
use time_expansion::di::{DiExpansionATPGModel, DiExpansionModel};
use time_expansion::extraction::{ConfiguredModel, ExtractedCombinationalPartModel};
use time_expansion::fault::Fault;
use time_expansion::text::{split_assign, to_decimal, trim_spaces};
use time_expansion::token::{Lexer, Token};
use time_expansion::verilog::{Module, ModuleError, PortWire, Verilog, Wire};

fn config_text(use_primary_io: &str, faults: &str) -> String {
    format!(
        "expansion-method bs
input-verilog m.v
output-verilog m_bs.v
top-module m
clock-pins clk
use-primary-io {}
equivalent-check {{
{}
}}
ff FD1 {{
  data-in D
  data-out Q
  control CP
}}
inv IV {{
  input A
  output Z
}}
",
        use_primary_io, faults
    )
}

const S1: &str = "module m ( a, q );
  input a;
  output q;
  FD1 u1 ( .D(a), .CP(clk), .Q(q) );
endmodule
";

const B01: &str = "module m ( clk, a, b, q );
  input clk, a, b;
  output q;
  wire n1, n2, s1, s2;
  FD1 s_reg ( .D(n1), .CP(clk), .Q(s1) );
  FD1 t_reg ( .D(n2), .CP(clk), .Q(s2) );
  AN2 U10 ( .A(a), .B(s1), .Z(n1) );
  OR2 U28 ( .A(b), .B(s2), .Z(n2) );
  IV U30 ( .A(s2), .Z(q) );
endmodule
";

fn lines(text: &str) -> Vec<String> {
    text.lines().map(|l| l.to_string()).collect()
}

fn configured(netlist: &str, use_primary_io: &str, faults: &str) -> ConfiguredModel {
    let cfg = ExpansionConfig::from_lines(&lines(&config_text(use_primary_io, faults))).unwrap();
    let verilog = Verilog::from_net_list(netlist).unwrap();
    ConfiguredModel::new(cfg, verilog).unwrap()
}

fn names(ws: &Vec<Wire>) -> Vec<String> {
    ws.iter().map(|w| w.name.clone()).collect()
}

fn has_assign(m: &Module, text: &str) -> bool {
    m.assigns.iter().any(|a| a == text)
}

fn gate_ids(m: &Module) -> Vec<String> {
    m.gates.iter().map(|g| g.0.clone()).collect()
}

#[test]
fn extraction_of_a_single_flip_flop() {
    let x = ExtractedCombinationalPartModel::from_configured_model(configured(S1, "no", "str u1 u1/D"));
    let m = &x.extracted_module;
    assert_eq!(names(&m.inputs), vec!["a", "ppi_1_u1"]);
    assert_eq!(names(&m.outputs), vec!["ppo_1_u1", "q"]);
    assert_eq!(m.assigns, vec!["ppo_1_u1 = a", "q = ppi_1_u1"]);
    assert!(m.gates.is_empty());
    assert_eq!(names(&x.primary_inputs), vec!["a"]);
    assert_eq!(names(&x.primary_outputs), vec!["q"]);
    assert_eq!(names(&x.pseudo_primary_inputs), vec!["ppi_1_u1"]);
    assert_eq!(names(&x.pseudo_primary_outputs), vec!["ppo_1_u1"]);
}

#[test]
fn extraction_drops_clock_and_scan_pins() {
    let netlist = "module m ( clk, test_se, a, q, test_so );
  input clk, test_se, a;
  output q, test_so;
  FD1 u1 ( .D(a), .CP(clk), .Q(q) );
endmodule
";
    let x = ExtractedCombinationalPartModel::from_configured_model(configured(netlist, "no", "str u1 u1/D"));
    assert_eq!(names(&x.primary_inputs), vec!["a"]);
    assert_eq!(names(&x.primary_outputs), vec!["q"]);
    assert!(!names(&x.extracted_module.inputs).contains(&String::from("clk")));
}

#[test]
fn extraction_inverts_through_the_library_inverter() {
    let netlist = "module m ( a, qn );
  input a;
  output qn;
  FD2 u1 ( .D(a), .CP(clk), .QN(qn) );
endmodule
";
    let text = "expansion-method bs
input-verilog m.v
output-verilog m_bs.v
top-module m
clock-pins clk
ff FD2 {
  data-in D
  data-out Q, QN
  control CP
}
inv IV {
  input A
  output Z
}
";
    let cfg = ExpansionConfig::from_lines(&lines(text)).unwrap();
    let cm = ConfiguredModel::new(cfg, Verilog::from_net_list(netlist).unwrap()).unwrap();
    let x = ExtractedCombinationalPartModel::from_configured_model(cm);
    let m = &x.extracted_module;
    assert_eq!(gate_ids(m), vec!["UN1"]);
    let inv = m.gate_by_name("UN1").unwrap();
    assert_eq!(inv.name, "IV");
    assert_eq!(
        inv.ports,
        vec![
            PortWire::Wire(String::from("A"), String::from("ppi_1_u1")),
            PortWire::Wire(String::from("Z"), String::from("qn")),
        ]
    );
}

#[test]
fn broadside_holds_primary_inputs() {
    let bs = BroadSideExpansionModel::from_extracted(ExtractedCombinationalPartModel::from_configured_model(
        configured(S1, "no", "str u1 u1/D"),
    ));
    let modules = &bs.expanded_model.modules;
    assert_eq!(modules.len(), 3);
    assert_eq!(modules[1].name, "m_c1");
    assert_eq!(modules[2].name, "m_c2");
    let top = &modules[0];
    assert_eq!(top.name, "m_bs");
    assert_eq!(names(&top.inputs), vec!["a_c1", "ppi_1_u1_c1"]);
    let wires = names(&top.wires);
    assert!(wires.contains(&String::from("a_c2")));
    assert!(wires.contains(&String::from("ppo_1_u1_c1")));
    assert!(has_assign(top, "ppi_1_u1_c2 = ppo_1_u1_c1"));
    assert!(has_assign(top, "a_c2 = a_c1"));
    assert!(has_assign(top, "ppo_1_u1 = ppo_1_u1_c2"));
    assert_eq!(names(&top.outputs), vec!["ppo_1_u1"]);
    assert_eq!(gate_ids(top), vec!["C1", "C2"]);
    assert_eq!(top.gates[0].1.name, "m_c1");
    let c1_ports: Vec<String> = top.gates[0].1.ports.iter().map(|p| p.port().to_string()).collect();
    assert!(!c1_ports.contains(&String::from("q")));
}

#[test]
fn broadside_with_primary_io() {
    let bs = BroadSideExpansionModel::from_extracted(ExtractedCombinationalPartModel::from_configured_model(
        configured(S1, "yes", "str u1 u1/D"),
    ));
    let top = &bs.expanded_model.modules[0];
    let inputs = names(&top.inputs);
    assert!(inputs.contains(&String::from("a_c2")));
    assert!(names(&top.outputs).contains(&String::from("q")));
    assert!(has_assign(top, "q = q_c2"));
    assert!(!has_assign(top, "a_c2 = a_c1"));
}

#[test]
fn stuck_at_on_an_input_port() {
    let verilog = Verilog::from_net_list(S1).unwrap();
    let m = &verilog.modules[0];
    let f = m.insert_stuck_at_fault(String::from("m_f"), &Fault::new(String::from("u1/D"), false)).unwrap();
    assert_eq!(f.name, "m_f");
    let g = f.gate_by_name("u1").unwrap();
    assert_eq!(g.port_by_name("D").unwrap().wire(), "1'b0");
    assert_eq!(f.wires, m.wires);
    assert_eq!(f.assigns, m.assigns);
}

#[test]
fn stuck_at_on_an_output_port() {
    let verilog = Verilog::from_net_list(S1).unwrap();
    let m = &verilog.modules[0];
    let f = m.insert_stuck_at_fault(String::from("m_f"), &Fault::new(String::from("u1/Q"), true)).unwrap();
    let g = f.gate_by_name("u1").unwrap();
    assert_eq!(g.port_by_name("Q").unwrap().wire(), "q_drained");
    assert_eq!(names(&f.wires), vec!["q_drained"]);
    assert_eq!(f.assigns, vec!["q = 1'b1"]);
}

#[test]
fn stuck_at_on_a_bare_wire() {
    let verilog = Verilog::from_net_list(B01).unwrap();
    let m = &verilog.modules[0];
    let f = m.insert_stuck_at_fault(String::from("m_f"), &Fault::new(String::from("s2"), false)).unwrap();
    assert_eq!(f.gate_by_name("t_reg").unwrap().port_by_name("Q").unwrap().wire(), "s2_drained");
    assert_eq!(f.gate_by_name("U28").unwrap().port_by_name("B").unwrap().wire(), "1'b0");
    assert_eq!(f.gate_by_name("U30").unwrap().port_by_name("A").unwrap().wire(), "1'b0");
    assert_eq!(f.assigns.iter().filter(|a| a.as_str() == "s2 = 1'b0").count(), 1);
    assert!(names(&f.wires).contains(&String::from("s2_drained")));
}

#[test]
fn too_deep_locations_are_refused() {
    let verilog = Verilog::from_net_list(B01).unwrap();
    let m = &verilog.modules[0];
    let r = m.insert_stuck_at_fault(String::from("m_f"), &Fault::new(String::from("a/b/c"), false));
    assert!(matches!(r, Err(ModuleError::ExceededStuckAtFaultInsertionDepth(_))));
    let mut m2 = m.clone();
    let r = m2.add_observation_point("U10/A/x", true);
    assert!(matches!(r, Err(ModuleError::ExceededStuckAtFaultInsertionDepth(_))));
    assert_eq!(&m2, m);
}

#[test]
fn unknown_instances_are_refused() {
    let verilog = Verilog::from_net_list(B01).unwrap();
    let mut m = verilog.modules[0].clone();
    assert!(matches!(m.add_observation_point("U99/A", false), Err(ModuleError::UndefinedSignal(_))));
    assert!(matches!(m.add_observation_point("U10/Q", false), Err(ModuleError::UndefinedSignal(_))));
    let r = m.insert_stuck_at_fault(String::from("x"), &Fault::new(String::from("U99/A"), false));
    assert!(matches!(r, Err(ModuleError::UndefinedSignal(_))));
}

#[test]
fn observation_points() {
    let verilog = Verilog::from_net_list(B01).unwrap();
    let mut m = verilog.modules[0].clone();
    let o = m.add_observation_point("U10/B", false).unwrap();
    assert_eq!(o, "U10_B_tp_str");
    assert!(has_assign(&m, "U10_B_tp_str = s1"));
    let o = m.add_observation_point("n2", true).unwrap();
    assert_eq!(o, "n2_tp_stf");
    assert!(has_assign(&m, "n2_tp_stf = n2"));
    assert!(names(&m.outputs).contains(&String::from("n2_tp_stf")));
}

#[test]
fn di_expansion_splits_outputs() {
    let bs = BroadSideExpansionModel::from_extracted(ExtractedCombinationalPartModel::from_configured_model(
        configured(S1, "yes", "str u1 u1/D"),
    ));
    let di = DiExpansionModel::from_broadside(bs);
    let modules = &di.expanded_model.modules;
    assert_eq!(modules.len(), 4);
    assert_eq!(modules[3].name, "m_c3");
    let top = &modules[0];
    assert_eq!(gate_ids(top), vec!["C1", "C2", "C3"]);
    let outputs = names(&top.outputs);
    for o in ["q_sa0", "q_sa1", "ppo_1_u1_sa0", "ppo_1_u1_sa1"] {
        assert!(outputs.contains(&String::from(o)), "{}", o);
    }
    assert!(!outputs.contains(&String::from("q")));
    assert!(has_assign(top, "q_sa0 = q_c2"));
    assert!(has_assign(top, "q_sa1 = q_c3"));
    assert!(!has_assign(top, "q = q_c2"));
    assert!(has_assign(top, "ppi_1_u1_c3 = ppo_1_u1_c1"));
    assert!(has_assign(top, "ppi_1_u1_c2 = ppo_1_u1_c1"));
}

#[test]
fn di_restriction_gates() {
    let faults = "str U10 U10/B\nstf U28 U28/A";
    let bs = BroadSideExpansionModel::from_extracted(ExtractedCombinationalPartModel::from_configured_model(
        configured(B01, "no", faults),
    ));
    let atpg = DiExpansionATPGModel::try_from_model(DiExpansionModel::from_broadside(bs)).unwrap();
    let top = &atpg.atpg_model.modules[0];
    let c1 = &atpg.atpg_model.modules[1];
    assert!(names(&c1.outputs).contains(&String::from("U10_B_tp_str")));
    assert!(names(&c1.outputs).contains(&String::from("U28_A_tp_stf")));
    let r = top.gate_by_name("R1_U10_B_str_c2").unwrap();
    assert_eq!(r.name, "OR2");
    assert_eq!(
        r.ports,
        vec![
            PortWire::Wire(String::from("A"), String::from("U10_B_tp_str")),
            PortWire::Wire(String::from("B"), String::from("ppo_1_s_reg_c2_U10_B_str")),
            PortWire::Wire(String::from("Z"), String::from("ppo_1_s_reg_sa0")),
        ]
    );
    let r2 = top.gate_by_name("R1_U28_A_stf_c2").unwrap();
    assert_eq!(r2.name, "AN2");
    assert_eq!(
        r2.ports,
        vec![
            PortWire::Wire(String::from("A"), String::from("U28_A_tp_stf")),
            PortWire::Wire(String::from("B"), String::from("ppo_1_s_reg_c2_U28_A_stf")),
            PortWire::Wire(String::from("Z"), String::from("ppo_1_s_reg_c2_U10_B_str")),
        ]
    );
    assert!(has_assign(top, "ppo_1_s_reg_c2_U28_A_stf = ppo_1_s_reg_c2"));
    assert_eq!(top.gate_by_name("R1_U10_B_str_c3").unwrap().name, "AN2");
    let (reference, implementation) = atpg.equivalent_check().unwrap();
    assert_eq!(reference, atpg.atpg_model);
    assert_eq!(implementation.modules[0], reference.modules[0]);
    assert_eq!(implementation.modules[1], reference.modules[1]);
    let c2 = &implementation.modules[2];
    assert_eq!(c2.gate_by_name("U10").unwrap().port_by_name("B").unwrap().wire(), "1'b0");
    assert_eq!(c2.gate_by_name("U28").unwrap().port_by_name("A").unwrap().wire(), "b");
    let c3 = &implementation.modules[3];
    assert_eq!(c3.gate_by_name("U10").unwrap().port_by_name("B").unwrap().wire(), "s1");
    assert_eq!(c3.gate_by_name("U28").unwrap().port_by_name("A").unwrap().wire(), "1'b1");
}

#[test]
fn di_needs_exactly_two_faults() {
    let bs = BroadSideExpansionModel::from_extracted(ExtractedCombinationalPartModel::from_configured_model(
        configured(B01, "no", "str U10 U10/B"),
    ));
    let r = DiExpansionATPGModel::try_from_model(DiExpansionModel::from_broadside(bs));
    assert!(matches!(
        r,
        Err(ExpansionConfigError::ConfigVerificationError(ExpansionConfigVerificationError::MalformedFaultSet))
    ));
}

#[test]
fn broadside_atpg_and_equivalence_pair() {
    let bs = BroadSideExpansionModel::from_extracted(ExtractedCombinationalPartModel::from_configured_model(
        configured(B01, "no", "str U10 U10/B"),
    ));
    let atpg = BroadSideExpansionATPGModel::try_from_model(bs).unwrap();
    let top = &atpg.atpg_model.modules[0];
    assert!(names(&top.wires).contains(&String::from("U10_B_tp_str")));
    assert_eq!(top.gate_by_name("R1_U10_B_str_c2").unwrap().name, "OR2");
    let (reference, implementation) = atpg.equivalent_check().unwrap();
    assert_eq!(reference, atpg.atpg_model);
    let c2 = &implementation.modules[2];
    assert_eq!(c2.gate_by_name("U10").unwrap().port_by_name("B").unwrap().wire(), "1'b0");
}

#[test]
fn broadside_atpg_refuses_unobservable_faults() {
    let bs = BroadSideExpansionModel::from_extracted(ExtractedCombinationalPartModel::from_configured_model(
        configured(S1, "no", "str u1 u1/D"),
    ));
    assert!(BroadSideExpansionATPGModel::try_from_model(bs).is_err());
}

#[test]
fn missing_top_module() {
    let text = config_text("no", "str u1 u1/D").replace("top-module m", "top-module zz");
    let cfg = ExpansionConfig::from_lines(&lines(&text)).unwrap();
    let r = ConfiguredModel::new(cfg, Verilog::from_net_list(S1).unwrap());
    assert!(matches!(r, Err(ExpansionConfigError::TopModuleMissing(_))));
}

#[test]
fn configuration_errors() {
    let base = config_text("no", "str u1 u1/D");
    let check = |text: String, expected: ExpansionConfigVerificationError| {
        match ExpansionConfig::from_lines(&lines(&text)) {
            Err(ExpansionConfigError::ConfigVerificationError(e)) => assert_eq!(e, expected),
            other => panic!("unexpected {:?}", other),
        }
    };
    check(base.replace("expansion-method bs\n", ""), ExpansionConfigVerificationError::UnspecifiedExpansionMethod);
    check(base.replace("expansion-method bs", "expansion-method LOS"), ExpansionConfigVerificationError::UnsupportedExpansionMethod);
    check(base.replace("input-verilog m.v\n", ""), ExpansionConfigVerificationError::NoInputFile);
    check(base.replace("output-verilog m_bs.v\n", ""), ExpansionConfigVerificationError::NoOutputFile);
    check(base.replace("top-module m\n", ""), ExpansionConfigVerificationError::UnspecifiedTopModule);
    let no_ff = base.replace("ff FD1 {\n  data-in D\n  data-out Q\n  control CP\n}\n", "");
    check(no_ff, ExpansionConfigVerificationError::UnspecifiedFFGate);
    check(base.replace("  output Z\n", ""), ExpansionConfigVerificationError::UnspecifiedInvGate);
    let bad = format!("{}bogus directive\n", base);
    assert!(matches!(ExpansionConfig::from_lines(&lines(&bad)), Err(ExpansionConfigError::ConfigSyntaxError(_))));
    let bad_ff = base.replace("  control CP\n", "  clock CP\n");
    assert!(matches!(ExpansionConfig::from_lines(&lines(&bad_ff)), Err(ExpansionConfigError::FFDefinitionError(_))));
    let bad_fault = base.replace("equivalent-check {\nstr u1 u1/D\n}", "equivalent-check xyz");
    assert!(matches!(ExpansionConfig::from_lines(&lines(&bad_fault)), Err(ExpansionConfigError::ConfigSyntaxError(_))));
}

#[test]
fn configuration_comments_and_single_faults() {
    let text = "expansion-method Broadside # the scheme
input-verilog m.v
output-verilog o.v
top-module m
use-primary-io YES
equivalent-check stf U1 U1/Z
ff FD1 {
  data-in D
}
inv IV {
  input A
  output Z
}
";
    let c = ExpansionConfig::from_lines(&lines(text)).unwrap();
    assert_eq!(c.expand_method, Some(ExpansionMethod::Broadside));
    assert!(c.use_primary_io);
    assert_eq!(c.equivalent_check, vec![Fault::new(String::from("U1/Z"), true)]);
    assert!(c.clock_pins.is_empty());
}

#[test]
fn method_names() {
    assert_eq!(ExpansionMethod::from_string("BroadSide"), Some(ExpansionMethod::Broadside));
    assert_eq!(ExpansionMethod::from_string("LOC"), Some(ExpansionMethod::Broadside));
    assert_eq!(ExpansionMethod::from_string("Sl"), Some(ExpansionMethod::SkewedLoad));
    assert_eq!(ExpansionMethod::from_string("los"), Some(ExpansionMethod::SkewedLoad));
    assert_eq!(ExpansionMethod::from_string("other"), None);
    assert_eq!(ExpansionMethod::from_lowered("BS"), None);
}

#[test]
fn fault_names() {
    let f = Fault::new(String::from("U10/B"), true);
    assert_eq!(f.slow_to(), "stf");
    assert_eq!(f.sanitized_location(), "U10_B");
    assert_eq!(Fault::new(String::from("w"), false).slow_to(), "str");
}

#[test]
fn text_helpers() {
    assert_eq!(to_decimal(0), "0");
    assert_eq!(to_decimal(120), "120");
    assert_eq!(trim_spaces("  a b  "), "a b");
    assert_eq!(split_assign("x = y + z"), Some((String::from("x"), String::from("y + z"))));
    assert_eq!(split_assign("nothing"), None);
}

#[test]
fn lexer_tokens() {
    let tokens = Lexer::from_str("assign z = 1'b0; module").tokenize();
    assert_eq!(
        tokens,
        vec![
            Token::Reserved(String::from("assign")),
            Token::Identifier(String::from("z")),
            Token::Reserved(String::from("=")),
            Token::Number(String::from("1'b0")),
            Token::Reserved(String::from(";")),
            Token::Reserved(String::from("module")),
        ]
    );
}

#[test]
fn serialized_module_text() {
    let v = Verilog::from_net_list("module t ( a, z );\n input [1:0] a;\n output z;\n assign z = a;\n AN2 g ( .A(a), .B(1'b1) );\nendmodule\n").unwrap();
    assert_eq!(
        v.gen(),
        "module t ( a, z );\n  input [1:0] a;\n  output z;\n  assign z = a;\n\n  AN2 g ( .A(a), .B(1'b1) );\nendmodule\n"
    );
    let again = Verilog::from_net_list(&v.gen()).unwrap();
    assert_eq!(again, v);
}

#[test]
fn pipeline_is_deterministic() {
    let run = || {
        let bs = BroadSideExpansionModel::from_extracted(ExtractedCombinationalPartModel::from_configured_model(
            configured(B01, "no", "str U10 U10/B\nstf U28 U28/A"),
        ));
        let atpg = DiExpansionATPGModel::try_from_model(DiExpansionModel::from_broadside(bs)).unwrap();
        let (r, i) = atpg.equivalent_check().unwrap();
        (r.gen(), i.gen())
    };
    assert_eq!(run(), run());
}

#[test]
fn ports_are_name_sorted() {
    let v = Verilog::from_net_list("module s ( z, a, m, y );\n input z, a, m;\n output y;\n wire q, b;\nendmodule\n").unwrap();
    let m = &v.modules[0];
    assert_eq!(names(&m.inputs), vec!["a", "m", "z"]);
    assert_eq!(names(&m.wires), vec!["b", "q"]);
    let mut m2 = m.clone();
    assert!(m2.push_input(Wire::new_single(String::from("c"))));
    assert!(!m2.push_input(Wire::new_single(String::from("c"))));
    assert_eq!(names(&m2.inputs), vec!["a", "c", "m", "z"]);
    assert!(m2.remove_input(&Wire::new_single(String::from("m"))));
    assert_eq!(names(&m2.inputs), vec!["a", "c", "z"]);
    assert!(v.gen().starts_with("module s ( a, m, z, y );\n  input a;\n  input m;\n  input z;\n"));
}

#[test]
fn broadside_declares_chain_wires_and_drops_ports() {
    let bs = BroadSideExpansionModel::from_extracted(ExtractedCombinationalPartModel::from_configured_model(
        configured(S1, "no", "str u1 u1/D"),
    ));
    let top = &bs.expanded_model.modules[0];
    assert!(names(&top.wires).contains(&String::from("ppi_1_u1_c2")));
    let c1 = top.gate_by_name("C1").unwrap();
    assert!(c1.port_by_name("q").is_none());
    assert_eq!(c1.port_by_name("a").unwrap().wire(), "a_c1");
    let c2 = top.gate_by_name("C2").unwrap();
    assert!(c2.port_by_name("q").is_none());
    assert_eq!(c2.port_by_name("ppo_1_u1").unwrap().wire(), "ppo_1_u1_c2");
    assert_eq!(c2.port_by_name("ppi_1_u1").unwrap().wire(), "ppi_1_u1_c2");
}

#[test]
fn di_third_copy_bindings() {
    let bs = BroadSideExpansionModel::from_extracted(ExtractedCombinationalPartModel::from_configured_model(
        configured(S1, "no", "str u1 u1/D"),
    ));
    let di = DiExpansionModel::from_broadside(bs);
    let top = &di.expanded_model.modules[0];
    let c3 = top.gate_by_name("C3").unwrap();
    assert_eq!(c3.port_by_name("ppo_1_u1").unwrap().wire(), "ppo_1_u1_c3");
    assert_eq!(c3.port_by_name("a").unwrap().wire(), "a_c3");
    assert!(c3.port_by_name("q").is_none());
    assert!(!has_assign(top, "ppo_1_u1 = ppo_1_u1_c2"));
    assert!(has_assign(top, "a_c3 = a_c1"));
    assert_eq!(top.gates[0].1.name, "m_c1");
    assert_eq!(top.gates[1].1.name, "m_c2");
}

#[test]
fn atpg_taps_are_bound_in_the_first_copy() {
    let bs = BroadSideExpansionModel::from_extracted(ExtractedCombinationalPartModel::from_configured_model(
        configured(B01, "no", "str U10 U10/B\nstf U28 U28/A"),
    ));
    let atpg = BroadSideExpansionATPGModel::try_from_model(bs).unwrap();
    let c1 = atpg.atpg_model.modules[0].gate_by_name("C1").unwrap();
    for o in ["U10_B_tp_str", "U28_A_tp_stf"] {
        assert!(c1.ports.contains(&PortWire::Wire(String::from(o), String::from(o))), "{}", o);
    }
}

#[test]
fn parsed_sample_module() {
    let v = Verilog::from_net_list("module t ( a, z );\n input [1:0] a;\n output z;\n assign z = a;\n AN2 g ( .A(a[1]), .B(1'b1) );\nendmodule\n").unwrap();
    assert_eq!(v.modules.len(), 1);
    let m = &v.modules[0];
    assert_eq!(m.name, "t");
    assert_eq!(m.inputs, vec![Wire::new_multiple(String::from("a"), String::from("1"), String::from("0"))]);
    assert_eq!(names(&m.outputs), vec!["z"]);
    assert_eq!(m.assigns, vec!["z = a"]);
    assert_eq!(gate_ids(m), vec!["g"]);
    assert_eq!(
        m.gates[0].1.ports,
        vec![
            PortWire::Wire(String::from("A"), String::from("a[1]")),
            PortWire::Constant(String::from("B"), String::from("1'b1")),
        ]
    );
    assert!(Verilog::from_net_list("module t ( a ) input a; endmodule").is_err());
}

#[test]
fn line_comments_are_stripped() {
    let lines = vec![String::from("module t ( a ); // header"), String::from("input a; endmodule")];
    assert_eq!(time_expansion::text::source_of_lines(&lines), "module t ( a ); \ninput a; endmodule\n");
}

#[test]
fn flip_flops_are_numbered_in_instance_order() {
    let netlist = "module m ( a, q );
  input a;
  output q;
  wire s;
  FD1 z_reg ( .D(a), .CP(clk), .Q(s) );
  FD1 a_reg ( .D(s), .CP(clk), .Q(q) );
endmodule
";
    let x = ExtractedCombinationalPartModel::from_configured_model(configured(netlist, "no", "str z_reg z_reg/D"));
    assert_eq!(names(&x.pseudo_primary_inputs), vec!["ppi_1_a_reg", "ppi_2_z_reg"]);
    assert_eq!(names(&x.pseudo_primary_outputs), vec!["ppo_1_a_reg", "ppo_2_z_reg"]);
    let v = Verilog::from_net_list(netlist).unwrap();
    assert_eq!(gate_ids(&v.modules[0]), vec!["a_reg", "z_reg"]);
    let text = v.gen();
    assert!(text.find("FD1 a_reg").unwrap() < text.find("FD1 z_reg").unwrap());
}
