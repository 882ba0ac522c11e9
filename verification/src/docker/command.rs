use vstd::prelude::*;

use crate::error::Error;
use crate::text::lines_view;

verus! {

/// What a finished `docker` command reported.
pub struct CmdOutput {
    pub success: bool,
    pub status: String,
    pub stdout: String,
    pub stderr: String,
}

/// The `docker` operations the tool performs.
pub trait Docker {
    fn stop(&mut self, id: &str) -> Result<bool, Error>;

    fn remove(&mut self, id: &str) -> Result<bool, Error>;

    fn start(&mut self, id: &str) -> Result<bool, Error>;

    fn ps_ids(&mut self, filters: &[String], all_states: bool) -> Result<CmdOutput, Error>;

    fn inspect(&mut self, ids: &[String]) -> Result<CmdOutput, Error>;

    fn inspect_format(&mut self, target: &str, format: &str) -> Result<CmdOutput, Error>;

    fn image_config(&mut self, image: &str) -> Result<CmdOutput, Error>;

    fn pull_streamed(&mut self, image: &str) -> Result<bool, Error>;

    fn build_streamed(&mut self, build_args: &[String]) -> Result<bool, Error>;

    fn run_container(&mut self, run_args: &[String]) -> Result<CmdOutput, Error>;

    fn exec_interactive(&mut self, exec_args: &[String]) -> Result<bool, Error>;

    fn exec_capture(&mut self, exec_args: &[String]) -> Result<CmdOutput, Error>;

    fn exec_group(&mut self, argvs: &[Vec<String>], wait: bool, label: &str) -> Result<bool, Error>;

    fn compose(&mut self, args: &[String]) -> Result<bool, Error>;

    fn compose_config_json(&mut self, global_args: &[String]) -> Result<CmdOutput, Error>;

    fn compose_build_streamed(&mut self, args: &[String]) -> Result<bool, Error>;
}

/// `--filter` before each of `filters[..n]`.
pub open spec fn filter_flags(filters: Seq<Seq<char>>) -> Seq<Seq<char>>
    decreases filters.len(),
{
    if filters.len() == 0 {
        Seq::empty()
    } else {
        filter_flags(filters.drop_last()) + seq!["--filter"@, filters.last()]
    }
}

/// The arguments of `docker ps` that list the IDs of the containers that pass all
/// `filters`, stopped ones too where `all_states` holds.
pub fn ps_ids_args(filters: &[String], all_states: bool) -> (r: Vec<String>)
    ensures
        lines_view(r@) == seq!["ps"@] + (if all_states {
            seq!["-a"@]
        } else {
            Seq::empty()
        }) + filter_flags(lines_view(filters@)) + seq!["--format"@, "{{.ID}}"@],
{
    let mut args: Vec<String> = Vec::new();
    args.push("ps".to_owned());
    if all_states {
        args.push("-a".to_owned());
    }
    let ghost head = lines_view(args@);
    let mut i: usize = 0;
    while i < filters.len()
        invariant
            i <= filters.len(),
            lines_view(args@) == head + filter_flags(lines_view(filters@).take(i as int)),
        decreases filters.len() - i,
    {
        let ghost before = lines_view(args@);
        args.push("--filter".to_owned());
        args.push(filters[i].clone());
        assert(lines_view(args@) =~= before + seq!["--filter"@, filters@[i as int]@]);
        assert(lines_view(filters@).take(i + 1).last() == filters@[i as int]@);
        assert(lines_view(filters@).take(i + 1).drop_last() =~= lines_view(filters@).take(i as int));
        assert(lines_view(args@) =~= head + filter_flags(lines_view(filters@).take(i + 1)));
        i += 1;
    }
    assert(lines_view(filters@).take(filters.len() as int) =~= lines_view(filters@));
    let ghost body = lines_view(args@);
    args.push("--format".to_owned());
    args.push("{{.ID}}".to_owned());
    assert(head =~= seq!["ps"@] + (if all_states {
        seq!["-a"@]
    } else {
        Seq::<Seq<char>>::empty()
    }));
    assert(lines_view(args@) =~= body + seq!["--format"@, "{{.ID}}"@]);
    args
}

/// The docker subcommand `subcommand` followed by `args`.
pub fn with_subcommand(subcommand: &[&str], args: &[String]) -> (r: Vec<String>)
    ensures
        lines_view(r@) == Seq::new(subcommand.len() as nat, |i: int| subcommand@[i]@) + lines_view(args@),
{
    let mut all: Vec<String> = Vec::new();
    let mut i: usize = 0;
    while i < subcommand.len()
        invariant
            i <= subcommand.len(),
            lines_view(all@) == Seq::new(i as nat, |k: int| subcommand@[k]@),
        decreases subcommand.len() - i,
    {
        let ghost before = lines_view(all@);
        let word: String = subcommand[i].to_owned();
        assert(word@ == subcommand@[i as int]@);
        all.push(word);
        assert(lines_view(all@) =~= before.push(subcommand@[i as int]@));
        assert(lines_view(all@) =~= Seq::new((i + 1) as nat, |k: int| subcommand@[k]@));
        i += 1;
    }
    let ghost head = lines_view(all@);
    let mut j: usize = 0;
    while j < args.len()
        invariant
            j <= args.len(),
            lines_view(all@) == head + lines_view(args@).take(j as int),
        decreases args.len() - j,
    {
        let ghost before = lines_view(all@);
        all.push(args[j].clone());
        assert(lines_view(all@) =~= before.push(args@[j as int]@));
        assert(lines_view(args@).take(j + 1) =~= lines_view(args@).take(j as int).push(args@[j as int]@));
        assert(lines_view(all@) =~= head + lines_view(args@).take(j + 1));
        j += 1;
    }
    assert(lines_view(args@).take(args.len() as int) =~= lines_view(args@));
    all
}

/// The arguments of `docker compose` that print the project's configuration as JSON.
pub fn compose_config_args(global_args: &[String]) -> (r: Vec<String>)
    ensures
        lines_view(r@) == seq!["compose"@] + lines_view(global_args@) + seq!["config"@, "--format"@, "json"@],
{
    let mut args = with_subcommand(&["compose"], global_args);
    let ghost head = lines_view(args@);
    args.push("config".to_owned());
    args.push("--format".to_owned());
    args.push("json".to_owned());
    proof {
        let sub: Seq<Seq<char>> = Seq::new(1, |i: int| ["compose"]@[i]@);
        assert(sub =~= seq!["compose"@]);
        assert(lines_view(args@) =~= head + seq!["config"@, "--format"@, "json"@]);
    }
    args
}

} // verus!
