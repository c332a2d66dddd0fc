//! The configuration file and how it combines with the command line.

use crate::args::Args;
use crate::filter::FilterArgs;
use crate::output::OutputFormat;
use crate::scan::ScanArgs;
use crate::search::{first_where, lemma_first_where_is, lemma_first_where_none};
use crate::text::{clone_option_string, option_view, string_views};
use vstd::prelude::*;

verus! {

/// The settings of a configuration file. Every setting is optional.
#[derive(Debug, Default)]
pub struct Config {
    pub root: Option<String>,
    pub format: Option<OutputFormat>,
    pub output: Option<String>,
    pub quiet: Option<bool>,
    pub fail_on_empty: Option<bool>,
    pub include_git_meta: Option<bool>,
    pub include_blame: Option<bool>,
    pub scan: ScanConfig,
    pub filter: FilterConfig,
}

/// The scanner's part of a configuration file.
#[derive(Debug, Default)]
pub struct ScanConfig {
    pub slug: Option<Vec<String>>,
}

/// The file filter's part of a configuration file.
#[derive(Debug, Default)]
pub struct FilterConfig {
    pub include_vendored: Option<bool>,
    pub include_generated: Option<bool>,
    pub include_submodules: Option<bool>,
    pub include_globs: Option<Vec<String>>,
    pub exclude_globs: Option<Vec<String>>,
}

/// A place where a configuration file may lie, and whether a file lies
/// there.
#[derive(Debug)]
pub struct ConfigProbe {
    pub path: String,
    pub is_file: bool,
}

/// The configuration file that applies: the first of the probed places at
/// which a file lies. The places are probed from the start directory
/// upwards, so the nearest file wins.
pub fn find_config(probes: &Vec<ConfigProbe>) -> (r: Option<String>)
    ensures
        match first_where(probes.len() as int, |i: int| probes@[i].is_file) {
            Some(i) => r matches Some(path) && path@ == probes@[i].path@,
            None => r is None,
        },
{
    let ghost pred = |i: int| probes@[i].is_file;
    let mut i: usize = 0;
    while i < probes.len()
        invariant
            i <= probes.len(),
            pred == |i: int| probes@[i].is_file,
            forall|k: int| 0 <= k < i ==> !#[trigger] pred(k),
        decreases probes.len() - i,
    {
        if probes[i].is_file {
            proof {
                assert(pred(i as int));
                lemma_first_where_is(probes.len() as int, pred, i as int);
            }
            return Some(probes[i].path.clone());
        }
        assert(!pred(i as int));
        i = i + 1;
    }
    proof {
        lemma_first_where_none(probes.len() as int, pred);
    }
    None
}

/// The settings of a run, once the command line and the configuration
/// file have been combined.
#[derive(Debug)]
pub struct Settings {
    pub root: String,
    pub format: OutputFormat,
    pub output: Option<String>,
    pub quiet: bool,
    pub fail_on_empty: bool,
    pub include_git_meta: bool,
    pub include_blame: bool,
    pub scan: ScanArgs,
    pub filter: FilterArgs,
}

/// A switch: set when the command line sets it or the configuration file
/// turns it on.
pub open spec fn switch(flag: bool, configured: Option<bool>) -> bool {
    flag || configured == Some(true)
}

/// A list: that of the command line unless it is empty, else that of the
/// configuration file, else none.
pub open spec fn chosen_list(given: Seq<Seq<char>>, configured: Option<Seq<Seq<char>>>) -> Seq<
    Seq<char>,
> {
    if given.len() > 0 {
        given
    } else {
        match configured {
            Some(list) => list,
            None => Seq::empty(),
        }
    }
}

/// The view of an optional list of strings.
pub open spec fn list_view(list: Option<Vec<String>>) -> Option<Seq<Seq<char>>> {
    match list {
        Some(v) => Some(string_views(v@)),
        None => None,
    }
}

/// A copy of a list of strings.
pub fn clone_strings(list: &Vec<String>) -> (r: Vec<String>)
    ensures
        string_views(r@) == string_views(list@),
{
    let mut r: Vec<String> = Vec::new();
    let mut i: usize = 0;
    while i < list.len()
        invariant
            i <= list.len(),
            r.len() == i,
            forall|k: int| 0 <= k < i ==> (#[trigger] r@[k])@ == list@[k]@,
        decreases list.len() - i,
    {
        r.push(list[i].clone());
        i = i + 1;
    }
    assert(string_views(r@) =~= string_views(list@));
    r
}

/// The list that applies.
fn choose_list(given: &Vec<String>, configured: &Option<Vec<String>>) -> (r: Vec<String>)
    ensures
        string_views(r@) == chosen_list(string_views(given@), list_view(*configured)),
{
    if given.len() > 0 {
        clone_strings(given)
    } else {
        match configured {
            Some(list) => clone_strings(list),
            None => {
                let r: Vec<String> = Vec::new();
                assert(string_views(r@) =~= Seq::<Seq<char>>::empty());
                r
            },
        }
    }
}

/// The switch that applies.
fn choose_switch(flag: bool, configured: Option<bool>) -> (r: bool)
    ensures
        r == switch(flag, configured),
{
    flag || match configured {
        Some(b) => b,
        None => false,
    }
}

/// The root of the scan: that of the command line, else that of the
/// configuration file, else the directory in which the configuration file
/// lies, else the current directory.
pub open spec fn chosen_root(
    given: Option<Seq<char>>,
    configured: Option<Seq<char>>,
    config_dir: Option<Seq<char>>,
) -> Seq<char> {
    match (given, configured, config_dir) {
        (Some(root), _, _) => root,
        (None, Some(root), _) => root,
        (None, None, Some(dir)) => dir,
        (None, None, None) => "."@,
    }
}

/// Combines the command line with the configuration file, which was read
/// from the directory `config_dir` if there is one.
///
/// What the command line gives wins; what it leaves open is taken from the
/// configuration file; what neither gives has its default: the directory
/// of the configuration file, or else the current directory, as root, the
/// JSON form, and failure on an empty result.
pub fn resolve(args: &Args, config: &Config, config_dir: Option<&str>) -> (r: Settings)
    ensures
        r.root@ == chosen_root(
            option_view(args.root),
            option_view(config.root),
            match config_dir {
                Some(dir) => Some(dir@),
                None => None,
            },
        ),
        r.format == match (args.format, config.format) {
            (Some(f), _) => f,
            (None, Some(f)) => f,
            (None, None) => OutputFormat::Json,
        },
        option_view(r.output) == match option_view(args.output) {
            Some(o) => Some(o),
            None => option_view(config.output),
        },
        r.quiet == switch(args.quiet, config.quiet),
        r.fail_on_empty == (config.fail_on_empty != Some(false)),
        r.include_git_meta == switch(args.include_git_meta, config.include_git_meta),
        r.include_blame == switch(args.include_blame, config.include_blame),
        string_views(r.scan.slug@) == chosen_list(
            string_views(args.scan.slug@),
            list_view(config.scan.slug),
        ),
        r.filter.include_vendored == switch(
            args.filter.include_vendored,
            config.filter.include_vendored,
        ),
        r.filter.include_generated == switch(
            args.filter.include_generated,
            config.filter.include_generated,
        ),
        r.filter.include_submodules == switch(
            args.filter.include_submodules,
            config.filter.include_submodules,
        ),
        string_views(r.filter.include_globs@) == chosen_list(
            string_views(args.filter.include_globs@),
            list_view(config.filter.include_globs),
        ),
        string_views(r.filter.exclude_globs@) == chosen_list(
            string_views(args.filter.exclude_globs@),
            list_view(config.filter.exclude_globs),
        ),
{
    let root = match &args.root {
        Some(root) => root.clone(),
        None => match &config.root {
            Some(root) => root.clone(),
            None => match config_dir {
                Some(dir) => dir.to_owned(),
                None => ".".to_owned(),
            },
        },
    };
    let format = match args.format {
        Some(f) => f,
        None => match config.format {
            Some(f) => f,
            None => OutputFormat::Json,
        },
    };
    let output = match &args.output {
        Some(o) => Some(o.clone()),
        None => clone_option_string(&config.output),
    };
    let fail_on_empty = match config.fail_on_empty {
        Some(b) => b,
        None => true,
    };
    Settings {
        root,
        format,
        output,
        quiet: choose_switch(args.quiet, config.quiet),
        fail_on_empty,
        include_git_meta: choose_switch(args.include_git_meta, config.include_git_meta),
        include_blame: choose_switch(args.include_blame, config.include_blame),
        scan: ScanArgs { slug: choose_list(&args.scan.slug, &config.scan.slug) },
        filter: FilterArgs {
            include_vendored: choose_switch(
                args.filter.include_vendored,
                config.filter.include_vendored,
            ),
            include_generated: choose_switch(
                args.filter.include_generated,
                config.filter.include_generated,
            ),
            include_submodules: choose_switch(
                args.filter.include_submodules,
                config.filter.include_submodules,
            ),
            include_globs: choose_list(&args.filter.include_globs, &config.filter.include_globs),
            exclude_globs: choose_list(&args.filter.exclude_globs, &config.filter.exclude_globs),
        },
    }
}

} // verus!
