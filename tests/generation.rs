use tig_circuit_gen::calibration::{
    calibration_seed, count_from_digits, parse_optimized_count, reducibility, ReportError,
};
use tig_circuit_gen::generator::generate_keyed;
use tig_circuit_gen::{difficulty_to_config, generate_circom_code, CircuitConfig};

fn eta(baseline: u64, optimized: u64) -> f64 {
    let r = reducibility(baseline, optimized);
    r.saved as f64 / r.baseline as f64
}

#[test]
fn test_difficulty_scaling() {
    let config_1 = difficulty_to_config(1);
    let config_10 = difficulty_to_config(10);
    assert!(config_10.num_constraints > config_1.num_constraints);
    assert!(config_10.max_depth > config_1.max_depth);
    assert!(config_10.redundancy_ratio <= config_1.redundancy_ratio);
    assert!(config_10.power_map_ratio >= config_1.power_map_ratio);
}

#[test]
fn test_deterministic_generation() {
    let config = difficulty_to_config(1);
    let seed = "test_seed";
    let code1 = generate_circom_code(seed, &config);
    let code2 = generate_circom_code(seed, &config);
    assert_eq!(code1, code2);
}

#[test]
fn test_different_seeds_produce_different_code() {
    let config = difficulty_to_config(1);
    let code1 = generate_circom_code("seed_a", &config);
    let code2 = generate_circom_code("seed_b", &config);
    assert_ne!(code1, code2);
}

#[test]
fn test_structure_contains_basics() {
    let config = difficulty_to_config(1);
    let code = generate_circom_code("seed", &config);
    assert!(code.contains("template Challenge"));
    assert!(code.contains("signal input in[5]"));
    assert!(code.contains("signal output out"));
    assert!(code.contains("<=="));
}

#[test]
fn test_reducibility_raw() {
    assert_eq!(eta(100, 80), 0.2);
    assert!((eta(100, 120) - (-0.2)).abs() < 1e-9);
    assert_eq!(eta(100, 100), 0.0);
}

#[test]
fn reducibility_is_exact_and_unclamped() {
    let r = reducibility(100, 80);
    assert_eq!((r.saved, r.baseline), (20, 100));
    let r = reducibility(100, 120);
    assert_eq!((r.saved, r.baseline), (-20, 100));
    let r = reducibility(100, 100);
    assert_eq!(r.saved, 0);
    let r = reducibility(1, u64::MAX);
    assert_eq!(r.saved, 1 - u64::MAX as i128);
}

#[test]
fn scaler_canonical_constants() {
    let c1 = difficulty_to_config(1);
    assert_eq!(
        c1,
        CircuitConfig { num_constraints: 1000, redundancy_ratio: 45, max_depth: 20, power_map_ratio: 10 }
    );
    let c10 = difficulty_to_config(10);
    assert_eq!(c10.num_constraints, 10000);
    assert_eq!(c10.max_depth, 110);
    assert_eq!(c10.redundancy_ratio, 5);
    assert_eq!(c10.power_map_ratio, 30);
    let c0 = difficulty_to_config(0);
    assert_eq!(
        c0,
        CircuitConfig { num_constraints: 0, redundancy_ratio: 50, max_depth: 10, power_map_ratio: 5 }
    );
    let top = difficulty_to_config(u32::MAX);
    assert_eq!(top.num_constraints, u32::MAX as u64 * 1000);
    assert_eq!(top.max_depth, 10 + u32::MAX as u64 * 10);
    assert_eq!(top.redundancy_ratio, 5);
    assert_eq!(top.power_map_ratio, 30);
}

#[test]
fn scaler_is_monotone_on_consecutive_levels() {
    for d in 0..20u32 {
        let a = difficulty_to_config(d);
        let b = difficulty_to_config(d + 1);
        assert!(b.num_constraints > a.num_constraints);
        assert!(b.max_depth > a.max_depth);
        assert!(b.redundancy_ratio <= a.redundancy_ratio);
        assert!(b.power_map_ratio >= a.power_map_ratio);
        assert!(b.redundancy_ratio >= 5 && b.power_map_ratio <= 30);
    }
}

#[test]
fn end_to_end_difficulty_one_is_byte_identical() {
    let config = difficulty_to_config(1);
    let a = generate_circom_code("test_seed", &config);
    let b = generate_circom_code("test_seed", &config);
    assert_eq!(a.as_bytes(), b.as_bytes());
}

#[test]
fn zero_constraints_wire_output_to_first_input() {
    let config = difficulty_to_config(0);
    let code = generate_circom_code("anything", &config);
    assert_eq!(
        code,
        "pragma circom 2.0.0;\n\ntemplate Challenge() {\n    signal input in[5];\n    signal output out;\n    out <== in[0];\n}\ncomponent main = Challenge();\n"
    );
}

#[test]
fn header_footer_and_declarations() {
    let config = difficulty_to_config(1);
    let code = generate_circom_code("seed", &config);
    assert!(code.starts_with(
        "pragma circom 2.0.0;\n\ntemplate Challenge() {\n    signal input in[5];\n    signal output out;\n"
    ));
    assert!(code.ends_with("    out <== s_999;\n}\ncomponent main = Challenge();\n"));
    assert_eq!(code.matches("signal input").count(), 1);
    assert_eq!(code.matches("signal output").count(), 1);
    for i in 0..1000 {
        let decl = format!("    signal s_{};\n", i);
        assert_eq!(code.matches(decl.as_str()).count(), 1);
        let assign = format!("    s_{} <== ", i);
        assert_eq!(code.matches(assign.as_str()).count(), 1);
    }
}

#[test]
fn every_signal_is_assigned_before_use() {
    let config = difficulty_to_config(2);
    let code = generate_circom_code("order", &config);
    let mut assigned: Vec<String> = (0..5).map(|k| format!("in[{}]", k)).collect();
    let mut declared: Vec<String> = Vec::new();
    for line in code.lines() {
        let line = line.trim();
        if let Some(rest) = line.strip_prefix("signal ") {
            if rest.starts_with("input") || rest.starts_with("output") {
                continue;
            }
            let name = rest.trim_end_matches(';').to_string();
            assert!(!declared.contains(&name));
            declared.push(name);
        } else if let Some((target, expr)) = line.split_once(" <== ") {
            let expr = expr.trim_end_matches(';');
            for operand in expr.split(' ').filter(|t| *t != "*" && *t != "+") {
                assert!(assigned.iter().any(|a| a == operand), "{} used before assignment", operand);
            }
            if target != "out" {
                assert!(declared.iter().any(|d| d == target));
                assert!(!assigned.iter().any(|a| a == target));
                assigned.push(target.to_string());
            }
        }
    }
    assert_eq!(declared.len(), assigned.len() - 5);
}

#[test]
fn keyed_generation_depends_on_key() {
    let config = difficulty_to_config(1);
    let a = generate_keyed(&[0u8; 32], &config);
    let b = generate_keyed(&[1u8; 32], &config);
    assert_ne!(a, b);
    assert_eq!(a, generate_keyed(&[0u8; 32], &config));
}

#[test]
fn depth_ceiling_one_resets_every_chain() {
    let config = CircuitConfig { num_constraints: 200, redundancy_ratio: 0, max_depth: 1, power_map_ratio: 0 };
    let code = generate_circom_code("shallow", &config);
    for line in code.lines() {
        if let Some((target, expr)) = line.trim().split_once(" <== ") {
            if target != "out" {
                let expr = expr.trim_end_matches(';');
                assert!(expr.starts_with("in[") && expr.contains(" in["), "{}", expr);
            }
        }
    }
}

#[test]
fn optimized_count_is_parsed() {
    assert_eq!(parse_optimized_count("template instances: 1\nnon-linear constraints: 942\nlinear constraints: 0\n"), Ok(942));
    assert_eq!(parse_optimized_count("non-linear constraints:17"), Ok(17));
}

#[test]
fn missing_pattern_is_an_error() {
    assert_eq!(parse_optimized_count("compiled, nothing to report"), Err(ReportError::PatternMissing));
    assert_eq!(parse_optimized_count(""), Err(ReportError::PatternMissing));
}

#[test]
fn huge_count_is_too_large() {
    assert_eq!(parse_optimized_count("non-linear constraints: 18446744073709551616"), Err(ReportError::TooLarge));
    assert_eq!(parse_optimized_count("non-linear constraints: 18446744073709551615"), Ok(u64::MAX));
}

#[test]
fn non_ascii_digits_are_not_a_number() {
    assert_eq!(count_from_digits("١٢"), Err(ReportError::NotANumber));
    assert_eq!(count_from_digits("12a"), Err(ReportError::NotANumber));
    assert_eq!(count_from_digits("0"), Ok(0));
    assert_eq!(count_from_digits("007"), Ok(7));
}

#[test]
fn calibration_seeds_name_difficulty_and_sample() {
    assert_eq!(calibration_seed(3, 17), "calib_3_17");
    assert_eq!(calibration_seed(0, 0), "calib_0_0");
    assert_eq!(calibration_seed(u32::MAX, 1203), "calib_4294967295_1203");
}
