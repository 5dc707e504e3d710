//! The fixed text that surrounds the clauses of each generated module.

use vstd::prelude::*;

verus! {

/// What opens the module of the per-chain processor: imports, the
/// function's signature, the names that clause bodies may use, and the
/// branch that never matches, which the clauses chain on to.
pub const CVAR_PROLOGUE: &'static str = r###"

        // Copyright (c) 2021 10x Genomics, Inc. All rights reserved.
        // This file is auto-generated by the crate enclone_vars, please do not edit.

        use amino::*;
        use crate::print_utils1::*;
        use crate::print_utils3::*;
        use enclone_core::align_to_vdj_ref::*;
        use enclone_core::defs::*;
        use enclone_core::median::*;
        use enclone_core::opt_d::*;
        use enclone_proto::types::*;
        use itertools::Itertools;
        use stats_utils::*;
        use std::cmp::min;
        use std::collections::HashMap;
        use string_utils::*;
        use vdj_ann::refx::RefData;
        use vector_utils::*;

        pub fn proc_cvar_auto(
            j: usize,
            pass: usize,
            var: &String,
            ex: &ExactClonotype,
            exacts: &Vec<usize>,
            exact_clonotypes: &Vec<ExactClonotype>,
            mid: usize,
            col: usize,
            u: usize,
            rsi: &ColInfo,
            refdata: &RefData,
            dref: &Vec<DonorReferenceItem>,
            ctl: &EncloneControl,
            extra_args: &Vec<String>,
            pcols_sort: &Vec<String>,
            cx: &mut Vec<Vec<String>>,
            varmat: &Vec<Vec<Vec<u8>>>,
            out_data: &mut Vec<HashMap<String, String>>,
            stats: &mut Vec<(String, Vec<String>)>,
            allele_data: &AlleleData,
        ) -> Result<bool, String> {

            let mut vname = var.clone();
            if var.contains(':') {
                vname = var.after(":").to_string();
            }
            let cvars = &ctl.clono_print_opt.cvars;
            let mut abbrc = format!("{}{}", var, col + 1);
            if var.contains(':') {
                abbrc = var.before(":").to_string();
            }
            let val =
            if false {
                (String::new(), Vec::<String>::new(), String::new())

        "###;

/// What closes the module of the per-chain processor: the branch for a
/// name that no clause matches, and the code that records the result, up
/// to the escape character that the code strips from values.
pub const CVAR_EPILOGUE_HEAD: &'static str = r###"

            } else {
                ("$UNDEFINED".to_string(), Vec::<String>::new(), String::new())
            };
            if val.0 == "$UNDEFINED" {
                Ok(false)
            } else {
                let (exact, cell, _level) = &val;
                let mut varc = format!("{}{}", var, col + 1);
                if !exact.is_empty() {
                    if j < rsi.cvars[col].len() && cvars.contains(var) {
                        cx[col][j] = exact.clone();
                    }
                    if pass == 2
                        && ((!ctl.parseable_opt.pout.is_empty()
                            && (ctl.parseable_opt.pchains == "max"
                                || col < ctl.parseable_opt.pchains.force_usize()))
                            || !extra_args.is_empty())
                    {
                        abbrc = abbrc.replace("_Σ", "_sum");
                        abbrc = abbrc.replace("_μ", "_mean");
                        varc = varc.replace("_Σ", "_sum");
                        varc = varc.replace("_μ", "_mean");
        
                        // Strip escape character sequences from exact.  Can happen in notes, 
                        // maybe other places.
        
                        let mut val_clean = String::new();
                        let mut chars = Vec::<char>::new();
                        let valx = exact.to_string();
                        for c in valx.chars() {
                            chars.push(c);
                        }
                        let mut escaped = false;
                        for l in 0..chars.len() {
                            if chars[l] == '"###;

/// The escape character, which the per-chain epilogue holds between its
/// head and its tail.
pub const ESCAPE: &'static str = "\u{1b}";

/// What closes the module of the per-chain processor, from behind the
/// escape character on.
pub const CVAR_EPILOGUE_TAIL: &'static str = r###"' {
                                escaped = true;
                            }
                            if escaped {
                                if chars[l] == 'm' {
                                    escaped = false;
                                }
                                continue;
                            }
                            val_clean.push(chars[l]);
                        }
        
                        // Proceed.
        
                        // let varc = format!("{}{}", v, col + 1);
                        if pcols_sort.is_empty()
                            || bin_member(pcols_sort, &varc)
                            || bin_member(extra_args, &varc)
                        {
                            out_data[u].insert(abbrc.clone(), val_clean);
                        }
                    }
                    if val.1.is_empty() {
                        stats.push((abbrc, vec![exact.to_string(); ex.ncells()]));
                    } else {
                        stats.push((abbrc, cell.to_vec()));
                    }
                } else if !cell.is_empty()
                    && pass == 2
                    && ((ctl.parseable_opt.pchains == "max"
                        || col < ctl.parseable_opt.pchains.force_usize())
                        || !extra_args.is_empty())
                    && (pcols_sort.is_empty() || bin_member(pcols_sort, &varc))
                {
                    let vals = format!("{}", cell.iter().format(POUT_SEP));
                    out_data[u].insert(abbrc, vals);
                }
                Ok(true)
            }
        }

        "###;

/// What opens the module of the per-clonotype processor.
pub const LVAR_PROLOGUE: &'static str = r###"

        // Copyright (c) 2021 10x Genomics, Inc. All rights reserved.
        // This file is auto-generated by the crate enclone_vars, please do not edit.

        use amino::*;
        use enclone_core::defs::*;
        use enclone_core::median::*;
        use enclone_proto::types::*;
        use itertools::Itertools;
        use ndarray::s;
        use regex::Regex;
        use std::cmp::{max, min};
        use std::collections::HashMap;
        use string_utils::*;
        use vdj_ann::refx::RefData;
        use vector_utils::*;
        #[cfg(not(target_os = "windows"))]
        use hdf5x::Reader;
        #[cfg(target_os = "windows")]
        use hdf5::Reader;

        pub fn proc_lvar_auto(
            i: usize,
            pass: usize,
            var: &String,
            exacts: &Vec<usize>,
            exact_clonotypes: &Vec<ExactClonotype>,
            u: usize,
            rsi: &ColInfo,
            refdata: &RefData,
            ctl: &EncloneControl,
            extra_args: &Vec<String>,
            out_data: &mut Vec<HashMap<String, String>>,
            stats: &mut Vec<(String, Vec<String>)>,
            lvars: &Vec<String>,
            row: &mut Vec<String>,
            fate: &Vec<HashMap<String, String>>,
            dref: &Vec<DonorReferenceItem>,
            varmat: &Vec<Vec<Vec<u8>>>,
            fp: &Vec<Vec<usize>>,
            n_vdj_gex: &Vec<usize>,
            vdj_cells: &Vec<Vec<String>>,
            gex_info: &GexInfo,
            groups: &HashMap<usize, Vec<usize>>,
            mults: &Vec<usize>,
            nd_fields: &Vec<String>,
            gex_counts_unsorted: &Vec<usize>,
            gex_fcounts_unsorted: &Vec<f64>,
            n_gexs: &Vec<usize>,
            d_readers: &Vec<Option<Reader>>,
            ind_readers: &Vec<Option<Reader>>,
            h5_data: &Vec<(usize, Vec<u32>, Vec<u32>)>,
            alt_bcs: &Vec<String>,
        ) -> Result<bool, String> {

            let clonotype_id = exacts[u];
            let ex = &exact_clonotypes[clonotype_id];
            let mat = &rsi.mat;
            let cols = varmat[0].len();
            let verbose = ctl.gen_opt.row_fill_verbose;
            let mut vname = var.clone();
            let mut abbr = var.clone();
            if var.contains(':') {
                abbr = var.before(":").to_string();
                vname = var.after(":").to_string();
            }

            macro_rules! speak {
                ($u:expr, $var:expr, $val:expr) => {
                    if pass == 2 && (!ctl.parseable_opt.pout.is_empty() || !extra_args.is_empty()) {
                        let mut v = $var.to_string();
                        v = v.replace("_Σ", "_sum");
                        v = v.replace("_μ", "_mean");
                        if ctl.parseable_opt.pcols.is_empty()
                            || bin_member(&ctl.parseable_opt.pcols_sortx, &v)
                            || bin_member(&extra_args, &v)
                        {
                            out_data[$u].insert(v, $val);
                        }
                    }
                };
            }

            let val =
            if false {
                (String::new(), Vec::<String>::new(), String::new())

        "###;

/// What closes the module of the per-clonotype processor.
pub const LVAR_EPILOGUE: &'static str = r###"

            } else {
                ("$UNDEFINED".to_string(), Vec::<String>::new(), String::new())
            };
            if val.0 == "$UNDEFINED" {
                Ok(false)
            } else {
                let (exact, cell, level) = &val;
                if level == "cell" && !var.ends_with("_cell") {
                    if verbose {
                        eprint!("lvar {} ==> {}; ", var, String::new());
                        eprintln!("i = {}, lvars.len() = {}", i, lvars.len());
                    }
                    if i < lvars.len() {
                        row.push(String::new())
                    }
                    if pass == 2 {
                        speak!(u, abbr, String::new());
                    }
                    stats.push((abbr.to_string(), cell.clone()));
                    if pass == 2 {
                        speak!(u, abbr, format!("{}", cell.iter().format(POUT_SEP)));
                    }
                } else if ( !exact.is_empty() && !var.ends_with("_cell") ) || cell.is_empty() {
                    if verbose {
                        eprint!("lvar {} ==> {}; ", var, exact);
                        eprintln!("i = {}, lvars.len() = {}", i, lvars.len());
                    }
                    if i < lvars.len() {
                        row.push(exact.clone())
                    }
                    if pass == 2 {
                        speak!(u, abbr, exact.to_string());
                    }
                    if cell.is_empty() {
                        stats.push((abbr, vec![exact.to_string(); ex.ncells()]));
                    } else {
                        stats.push((abbr, cell.to_vec()));
                    }
                } else if !cell.is_empty() {
                    if pass == 2 {
                        speak!(u, abbr, format!("{}", cell.iter().format(POUT_SEP)));
                    }
                    stats.push((abbr, cell.to_vec()));
                }
                Ok(true)
            }
        }

        "###;

} // verus!
