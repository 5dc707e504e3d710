use enclone_vars::compile::emit_code_to_test_for_var;
use enclone_vars::model::TargetClass;

#[test]
fn header_text_of_n_name_x_0() {
    assert_eq!(
        emit_code_to_test_for_var("n_NAME_x", TargetClass::Lvar),
        Ok("} else if vname.starts_with(\"n_\")\n                    && vname.after(\"n_\").ends_with(\"_x\")\n                    && ( bin_member(&ctl.origin_info.dataset_list, \n                        &vname.between2(\"n_\", \"_x\").to_string())\n                        || bin_member(&ctl.origin_info.origin_list, \n                        &vname.between2(\"n_\", \"_x\").to_string())\n                        || bin_member(&ctl.origin_info.donor_list, \n                        &vname.between2(\"n_\", \"_x\").to_string())\n                        || bin_member(&ctl.origin_info.tag_list, \n                        &vname.between2(\"n_\", \"_x\").to_string()) \n                       ) {\nlet name = vname.between2(\"n_\", \"_x\");\n".to_string())
    );
}

#[test]
fn header_text_of_count_rega_1() {
    assert_eq!(
        emit_code_to_test_for_var("count_REGA", TargetClass::Lvar),
        Ok("} else if vname.starts_with(\"count_\")\n                    && vname.after(\"count_\").ends_with(\"\")\n                    && !vname.between2(\"count_\", \"\").contains('_')\n                    && Regex::new(vname.between2(\"count_\", \"\")).is_ok() {\nlet reg = Regex::new(vname.between2(\"count_\", \"\")).unwrap();\n".to_string())
    );
}

#[test]
fn header_text_of_crega_2() {
    assert_eq!(
        emit_code_to_test_for_var("cREGA_", TargetClass::Cvar),
        Ok("} else if vname.starts_with('c')\n                    && vname.after(\"c\").ends_with('_')\n                    && !vname.between2(\"c\", \"_\").contains('_')\n                    && Regex::new(vname.between2(\"c\", \"_\")).is_ok() {\nlet reg = Regex::new(vname.between2(\"c\", \"_\")).unwrap();\n".to_string())
    );
}

#[test]
fn header_text_of_dataset_cells_3() {
    assert_eq!(
        emit_code_to_test_for_var("DATASET_cells", TargetClass::Lvar),
        Ok("} else if vname.starts_with(\"\")\n                    && vname.after(\"\").ends_with(\"_cells\")\n                    && bin_member(&ctl.origin_info.dataset_list, \n                        &vname.between2(\"\", \"_cells\").to_string()) {\nlet dataset = vname.between2(\"\", \"_cells\");\n".to_string())
    );
}

#[test]
fn header_text_of_q_3_7_4() {
    assert_eq!(
        emit_code_to_test_for_var("q{3..7}_", TargetClass::Cvar),
        Ok("} else if vname.starts_with('q') && vname.ends_with('_') && vname.between2(\"q\", \"_\").parse::<i64>().is_ok() && vname.between2(\"q\", \"_\").force_i64() >= 3 && vname.between2(\"q\", \"_\").force_i64() <= 7 { \nlet arg1 = vname.between2(\"q\", \"_\").force_i64();\n".to_string())
    );
}

#[test]
fn header_text_of_cdr_1_aa_5() {
    assert_eq!(
        emit_code_to_test_for_var("cdr{1..}_aa", TargetClass::Cvar),
        Ok("} else if vname.starts_with(\"cdr\") && vname.ends_with(\"_aa\") && vname.between2(\"cdr\", \"_aa\").parse::<i64>().is_ok() && vname.between2(\"cdr\", \"_aa\").force_i64() >= 1 { \nlet arg1 = vname.between2(\"cdr\", \"_aa\").force_i64();\n".to_string())
    );
}

#[test]
fn header_text_of_g_6() {
    assert_eq!(
        emit_code_to_test_for_var("g{..}", TargetClass::Lvar),
        Ok("} else if vname.starts_with('g') && vname.ends_with(\"\") && vname.between2(\"g\", \"\").parse::<i64>().is_ok() { \nlet arg1 = vname.between2(\"g\", \"\").force_i64();\n".to_string())
    );
}

#[test]
fn header_text_of_x_1_rega_y_7() {
    assert_eq!(
        emit_code_to_test_for_var("x{1..}_REGA_y", TargetClass::Lvar),
        Ok("} else if vname.starts_with(\"x\") && vname.ends_with(\"_y\") && vname.between2(\"x\", \"_y\").contains('_') && vname.between(\"x\", \"_\").parse::<i64>().is_ok() && vname.between(\"x\", \"_\").force_i64() >= 1 && !vname.after(\"x\").between2(\"_\", \"_y\").contains('_') && Regex::new(vname.after(\"x\").between2(\"_\", \"_y\")).is_ok() { \nlet arg1 = vname.between(\"x\", \"_\").force_i64();\nlet reg = Regex::new(vname.after(\"x\").between2(\"_\", \"_y\")).unwrap();\n".to_string())
    );
}

#[test]
fn header_text_of_cdr3_aa_8() {
    assert_eq!(
        emit_code_to_test_for_var("cdr3_aa", TargetClass::Cvar),
        Ok("} else if vname == \"cdr3_aa\" {\n".to_string())
    );
}

#[test]
fn header_text_of_bc_9() {
    assert_eq!(
        emit_code_to_test_for_var("BC", TargetClass::Lvar),
        Ok("} else if bin_member(alt_bcs, var) {\n".to_string())
    );
}

#[test]
fn header_text_of_info_10() {
    assert_eq!(
        emit_code_to_test_for_var("INFO", TargetClass::Lvar),
        Ok("} else if bin_member(&ctl.gen_opt.info_fields, var) {\n".to_string())
    );
}
