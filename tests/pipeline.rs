use time_expansion::broadside::{BroadSideExpansionATPGModel, BroadSideExpansionModel};
use time_expansion::config::{
    ExpansionConfig, ExpansionConfigError, ExpansionMethod, FFDefinition, InvDefinition,
};
use time_expansion::di::{DiExpansionATPGModel, DiExpansionModel};
use time_expansion::extraction::{ConfiguredModel, ExtractedCombinationalPartModel};
use time_expansion::fault::Fault;
use time_expansion::parser::Parser;
use time_expansion::token::Lexer;
use time_expansion::verilog::{Verilog, VerilogError};

const CONFIG: &str = "# expansion settings
expansion-method broadside
input-verilog b01_net.v
output-verilog b01_bs_net.v
top-module b01
clock-pins clock, reset
use-primary-io no
equivalent-check {
  str U10 U10/B
  stf U28 U28/A
}
ff FD2S {
  data-in D
  data-out Q, QN
  control TI, TE, CP, CD
}
ff FD2 {
  data-in D
  data-out Q, QN
  control CP, CD
}
ff FD1S {
  data-in D
  data-out Q, QN
  control TI, TE, CP
}
ff FD1 {
  data-in D
  data-out Q, QN
  control CP
}
inv IV {
  input A
  output Z
}
";

const NETLIST: &str = "module b01 ( clock, reset, a, b, test_si, test_se, q, test_so );
  input clock, reset, a, b, test_si, test_se;
  output q, test_so;
  wire n1, n2, s1, s1n;
  FD1 s_reg ( .D(n1), .CP(clock), .Q(s1), .QN(s1n) );
  FD2S t_reg ( .D(n2), .TI(test_si), .TE(test_se), .CP(clock), .CD(reset), .Q(q), .QN(test_so) );
  AN2 U10 ( .A(a), .B(s1), .Z(n1) );
  OR2 U28 ( .A(b), .B(s1n), .Z(n2) );
endmodule
";

const B02: &str = "module b02 ( linea, u, clock );
  input linea, clock;
  output u;
  wire n1, n2, s;
  FD1 s_reg ( .D(n2), .CP(clock), .Q(s) );
  IV U19 ( .A(linea), .Z(n1) );
  AN2 U24 ( .A(n1), .B(s), .Z(n2) );
  OR2 U25 ( .A(s), .B(linea), .Z(u) );
endmodule
";

fn lines(text: &str) -> Vec<String> {
    text.lines().map(|l| l.to_string()).collect()
}

fn test_configured_model() -> Result<ConfiguredModel, ExpansionConfigError> {
    let cfg = ExpansionConfig::from_lines(&lines(CONFIG))?;
    let verilog = Verilog::from_net_list(NETLIST).map_err(ExpansionConfigError::VerilogError)?;
    ConfiguredModel::new(cfg, verilog)
}

fn test_di_expansion_model() -> Result<DiExpansionModel, ExpansionConfigError> {
    let cm = test_configured_model()?;
    let bs = BroadSideExpansionModel::from_extracted(
        ExtractedCombinationalPartModel::from_configured_model(cm),
    );
    Ok(DiExpansionModel::from_broadside(bs))
}

#[test]
fn config_expansion_config() -> Result<(), ExpansionConfigError> {
    let ec = ExpansionConfig::from_lines(&lines(CONFIG))?;
    assert_eq!(ec.expand_method, Some(ExpansionMethod::Broadside));
    assert_eq!(ec.input_file, "b01_net.v");
    assert_eq!(ec.output_file, "b01_bs_net.v");
    assert_eq!(ec.top_module, "b01");
    assert_eq!(ec.clock_pins, vec!["clock", "reset"]);
    assert_eq!(
        ec.equivalent_check,
        vec![
            Fault::new(String::from("U10/B"), false),
            Fault::new(String::from("U28/A"), true),
        ]
    );
    assert!(!ec.use_primary_io);
    assert_eq!(
        ec.ff_definitions,
        vec![
            FFDefinition {
                name: String::from("FD2S"),
                data_in: vec![String::from("D")],
                data_out: vec![String::from("Q"), String::from("QN")],
                control: vec![
                    String::from("TI"),
                    String::from("TE"),
                    String::from("CP"),
                    String::from("CD"),
                ],
            },
            FFDefinition {
                name: String::from("FD2"),
                data_in: vec![String::from("D")],
                data_out: vec![String::from("Q"), String::from("QN")],
                control: vec![String::from("CP"), String::from("CD")],
            },
            FFDefinition {
                name: String::from("FD1S"),
                data_in: vec![String::from("D")],
                data_out: vec![String::from("Q"), String::from("QN")],
                control: vec![String::from("TI"), String::from("TE"), String::from("CP")],
            },
            FFDefinition {
                name: String::from("FD1"),
                data_in: vec![String::from("D")],
                data_out: vec![String::from("Q"), String::from("QN")],
                control: vec![String::from("CP")],
            },
        ]
    );
    assert_eq!(
        ec.inv_definition,
        InvDefinition {
            name: String::from("IV"),
            input: String::from("A"),
            output: String::from("Z"),
        }
    );
    Ok(())
}

#[test]
fn di_expansion_model() -> Result<(), ExpansionConfigError> {
    let _bsd = test_di_expansion_model()?;
    Ok(())
}

#[test]
fn di_expansion_atpg_model() -> Result<(), ExpansionConfigError> {
    let _dam = DiExpansionATPGModel::try_from_model(test_di_expansion_model()?)?;
    Ok(())
}

#[test]
fn di_expansion_equivalent_check() -> Result<(), ExpansionConfigError> {
    let dam = DiExpansionATPGModel::try_from_model(test_di_expansion_model()?)?;
    let (_ref_v, _imp_v) = dam.equivalent_check().unwrap();
    Ok(())
}

#[test]
fn configured_model() -> Result<(), ExpansionConfigError> {
    let cm = test_configured_model()?;
    println!("{}", cm.verilog.gen());
    Ok(())
}

#[test]
fn extract_combinational_part() -> Result<(), ExpansionConfigError> {
    let ecpm = ExtractedCombinationalPartModel::from_configured_model(test_configured_model()?);
    println!("{}", ecpm.extracted_module.gen());
    println!("{:?}", ecpm.primary_inputs);
    println!("{:?}", ecpm.primary_outputs);
    println!("{:?}", ecpm.pseudo_primary_inputs);
    println!("{:?}", ecpm.pseudo_primary_outputs);
    Ok(())
}

#[test]
fn broad_side_expand() -> Result<(), ExpansionConfigError> {
    let _bs = BroadSideExpansionModel::from_extracted(
        ExtractedCombinationalPartModel::from_configured_model(test_configured_model()?),
    );
    Ok(())
}

#[test]
fn broad_side_expand_atpg() -> Result<(), ExpansionConfigError> {
    let bs = BroadSideExpansionModel::from_extracted(
        ExtractedCombinationalPartModel::from_configured_model(test_configured_model()?),
    );
    let _ = BroadSideExpansionATPGModel::try_from_model(bs).map_err(ExpansionConfigError::VerilogError)?;
    Ok(())
}

#[test]
fn equivalent_check_test() -> Result<(), ExpansionConfigError> {
    let bs = BroadSideExpansionModel::from_extracted(
        ExtractedCombinationalPartModel::from_configured_model(test_configured_model()?),
    );
    let atpg = BroadSideExpansionATPGModel::try_from_model(bs).map_err(ExpansionConfigError::VerilogError)?;
    let _ = atpg.equivalent_check().map_err(ExpansionConfigError::VerilogError)?;
    Ok(())
}

#[test]
fn parse() {
    let lexer = Lexer::from_str(
        "module or( a, b, z ); input [1:0] a, b; output [1:0] z; assign z[0] = a[0] + b[0]; and u1(.a(a[1]), .b(1'b1), .z(z[1])); endmodule ",
    );
    Parser::from_tokens(lexer.tokenize()).verilog().ok();
}

#[test]
fn tokenize() {
    Lexer::from_str("module or( a, b, z ); input a, b; output z; assign z = a + b; endmodule");
}

#[test]
fn mod_expansion_config() -> Result<(), VerilogError> {
    let _verilog = Verilog::from_net_list(B02)?;
    Ok(())
}

#[test]
fn insert_fault() -> Result<(), VerilogError> {
    let verilog = Verilog::from_net_list(B02)?;
    let module = verilog.modules.get(0).unwrap();
    println!("{}", module.gen());
    let fmodule = module.insert_stuck_at_fault(
        String::from("b02_ft"),
        &Fault::new(String::from("U19/A"), false),
    ).map_err(VerilogError::ModuleError)?;
    println!("{}", fmodule.gen());
    let fmodule = module.insert_stuck_at_fault(
        String::from("b02_ft"),
        &Fault::new(String::from("U19/Z"), false),
    ).map_err(VerilogError::ModuleError)?;
    println!("{}", fmodule.gen());
    let fmodule = module.insert_stuck_at_fault(
        String::from("b02_ft"),
        &Fault::new(String::from("linea"), false),
    ).map_err(VerilogError::ModuleError)?;
    println!("{}", fmodule.gen());
    let fmodule = module.insert_stuck_at_fault(
        String::from("b02_ft"),
        &Fault::new(String::from("u"), false),
    ).map_err(VerilogError::ModuleError)?;
    println!("{}", fmodule.gen());
    Ok(())
}

#[test]
fn add_observation_point() -> Result<(), VerilogError> {
    let mut verilog = Verilog::from_net_list(B02)?;
    let mut module = verilog.take_module_buy_name(&String::from("b02")).unwrap();
    println!("{}", module.gen());
    module.add_observation_point(&String::from("U24/A"), false).map_err(VerilogError::ModuleError)?;
    println!("{}", module.gen());
    module.add_observation_point(&String::from("u"), true).map_err(VerilogError::ModuleError)?;
    println!("{}", module.gen());
    Ok(())
}

#[test]
fn netlist_serializer_expansion_config() -> Result<(), VerilogError> {
    let verilog = Verilog::from_net_list(NETLIST)?;
    let regen_net_list = verilog.gen();
    let regen_verilog = Verilog::from_net_list(&regen_net_list)?;
    assert_eq!(verilog, regen_verilog);
    Ok(())
}

#[test]
fn verilog_expansion_config() -> Result<(), ExpansionConfigError> {
    let ec = ExpansionConfig::from_lines(&lines(CONFIG))?;
    let verilog = Verilog::from_net_list(NETLIST).map_err(ExpansionConfigError::VerilogError)?;
    assert!(verilog.module_by_name(ec.top_module()).is_some());
    println!("{:?}", verilog);
    Ok(())
}
