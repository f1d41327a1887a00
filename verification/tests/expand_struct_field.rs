//! Scenarios for the struct-field expansion core. Each test states the
//! editor fixture it models, the source fields as name resolution delivers
//! them (visibility from the target module, instantiated type texts), and
//! the replacement declarations the expansion must produce.

use config_tree::SourceField;
use config_tree::expand_struct_field;

fn fld(visible: bool, name: &str, ty: &str) -> SourceField {
    SourceField { visible, name: name.to_string(), ty: ty.to_string() }
}

fn check(vis: &str, target: &str, fields: Vec<SourceField>, expected: &[&str]) {
    let out = expand_struct_field(&vis.to_string(), &target.to_string(), &fields)
        .expect("the assist should be applicable");
    let got: Vec<&str> = out.iter().map(|s| s.as_str()).collect();
    assert_eq!(got, expected);
}

fn check_not_applicable(vis: &str, target: &str, fields: Vec<SourceField>) {
    assert!(expand_struct_field(&vis.to_string(), &target.to_string(), &fields).is_none());
}

#[test]
fn src_in_same_mod() {
    let _fixture = "
struct A {
    i : i32,
    j : i32,
}

struct B {
    k$0 : A
}";
    check(
        "",
        "k",
        vec![fld(true, "i", "i32"), fld(true, "j", "i32")],
        &["k_i : i32", "k_j : i32"],
    );
}

#[test]
fn src_not_vis() {
    // Source lives in a private module; neither field is visible from the
    // target, so the assist does not apply.
    check_not_applicable("pub ", "xy", vec![fld(false, "x", "i32"), fld(false, "y", "i32")]);
}

#[test]
fn src_in_sibling_mod() {
    check(
        "pub ",
        "xy",
        vec![fld(true, "x", "i32"), fld(true, "y", "i32")],
        &["pub xy_x : i32", "pub xy_y : i32"],
    );
}

#[test]
fn src_in_sibling_mod_no_vis_fields() {
    check_not_applicable("pub ", "xy", vec![fld(false, "x", "i32"), fld(false, "y", "i32")]);
}

#[test]
fn src_in_sibling_mod_some_vis_fields() {
    check(
        "pub ",
        "xy",
        vec![fld(true, "x", "i32"), fld(false, "y", "i32")],
        &["pub xy_x : i32"],
    );
}

#[test]
fn src_has_lifetimes() {
    // Source<'a, 'b> instantiated as Source<'a, 'a> from the target.
    check(
        "",
        "src",
        vec![fld(true, "a", "&'a str"), fld(true, "b", "&'a str")],
        &["src_a : &'a str", "src_b : &'a str"],
    );
}

#[test]
fn expand_struct_field_test_1() {
    // Source<'a, D> instantiated as Source<'def, i32>.
    check(
        "",
        "a",
        vec![fld(true, "i", "C<'def, i32>"), fld(true, "j", "i32")],
        &["a_i : C<'def, i32>", "a_j : i32"],
    );
}

#[test]
fn test_2() {
    // The where-clause travels with the structs; the field's type is the
    // bare parameter.
    check("", "a", vec![fld(true, "f", "T")], &["a_f : T"]);
}

#[test]
fn test_5() {
    let _fixture = "
struct Source<T = i32> {
    b: T,
}

struct Target {
    a: So$0urce,
}
";
    let _expected = "
struct Source<T = i32> {
    b: T,
}

struct Target {
    a_b: i32,
}
    ";
    // The defaulted parameter resolves to i32.
    check("", "a", vec![fld(true, "b", "i32")], &["a_b : i32"]);
}

#[test]
fn test_6() {
    let _fixture = "
struct Source<T = i32> {
    b: T,
}

struct Target {
    a: So$0urce,
}
";
    let _expected = "
struct Source<T = i32> {
    b: T,
}

struct Target {
    a_b: i32,
}
";
    check("", "a", vec![fld(true, "b", "i32")], &["a_b : i32"]);
}
