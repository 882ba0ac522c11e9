use vstd::prelude::*;

use crate::devcontainer::config::{
    DevcontainerConfig, DockerfileBuildConfig, DockerfileConfig, ImageConfig, CommonConfig,
};
use crate::devcontainer::docker_args::{container_run_options, run_options, run_workspace_folder, workspace_folder_for};
use crate::devcontainer::docker_compose::{compose_args, compose_args_fit, ComposeArgs};
use crate::devcontainer::variables::{expand_variables, expanded};
use crate::docker::image_tag;
use crate::docker::tag::image_tag_of;
use crate::text::{lines_view, push_str, string_of};

verus! {

/// How a single container is started: from which image, with which `docker run`
/// options, and whether its command is overridden.
pub struct ContainerSetup {
    pub base_image: String,
    pub run_args: Vec<String>,
    pub override_command: Option<bool>,
}

/// What a configuration starts: one container, or a Compose project.
pub enum ContainerTarget {
    Single(ContainerSetup),
    Compose(ComposeArgs),
}

/// The `docker run` options for the shared settings `common`, the extra `run_args` and
/// the configured workspace mount, its variables expanded, and last the label that names
/// the configuration file `config_path` (which finding the container again looks for).
pub open spec fn setup_run_args(
    common: CommonConfig,
    run_args: Seq<String>,
    workspace_mount: Option<String>,
    cwd: Seq<char>,
    config_path: Seq<char>,
    local_env: Seq<(String, String)>,
) -> Seq<Seq<char>> {
    let folder = run_workspace_folder(common, cwd);
    let mount = match workspace_mount {
        Some(m) => Some(expanded(m@, cwd, folder, Seq::empty(), local_env)),
        None => None,
    };
    run_options(common, Some(run_args), mount, cwd) + seq!["--label"@, "devcontainer.config_file="@ + config_path]
}

fn run_args_for(
    common: &CommonConfig,
    run_args: &[String],
    raw_workspace_mount: &Option<String>,
    cwd: &str,
    config_path: &str,
    local_env: &[(String, String)],
) -> (r: Vec<String>)
    requires
        common.container_env.wf(),
    ensures
        lines_view(r@) == setup_run_args(*common, run_args@, *raw_workspace_mount, cwd@, config_path@, local_env@),
{
    let folder = workspace_folder_for(common, cwd);
    let no_env: Vec<(String, String)> = Vec::new();
    let mount: Option<String> = match raw_workspace_mount {
        Some(m) => Some(expand_variables(m.as_str(), cwd, folder.as_str(), no_env.as_slice(), local_env)),
        None => None,
    };
    proof {
        assert(no_env@ =~= Seq::<(String, String)>::empty());
    }
    let mut args = match &mount {
        Some(m) => container_run_options(common, Some(run_args), Some(m.as_str()), cwd),
        None => container_run_options(common, Some(run_args), None, cwd),
    };
    let ghost before = lines_view(args@);
    args.push("--label".to_owned());
    let mut label: Vec<char> = Vec::new();
    push_str(&mut label, "devcontainer.config_file=");
    push_str(&mut label, config_path);
    args.push(string_of(label.as_slice()));
    assert(lines_view(args@) =~= before + seq!["--label"@, "devcontainer.config_file="@ + config_path@]);
    args
}

/// The container of an image configuration: the image itself, started with the
/// configuration's options.
pub fn from_image(c: &ImageConfig, cwd: &str, config_path: &str, local_env: &[(String, String)]) -> (r: ContainerSetup)
    requires
        c.common.container_env.wf(),
    ensures
        r.base_image@ == c.image@,
        lines_view(r.run_args@) == setup_run_args(c.common, c.run_args@, c.workspace_mount, cwd@, config_path@, local_env@),
        r.override_command == c.common.override_command,
{
    ContainerSetup {
        base_image: c.image.clone(),
        run_args: run_args_for(&c.common, c.run_args.as_slice(), &c.workspace_mount, cwd, config_path, local_env),
        override_command: c.common.override_command,
    }
}

/// The container of a Dockerfile configuration: the image built for the workspace.
pub fn from_dockerfile(c: &DockerfileConfig, cwd: &str, config_path: &str, local_env: &[(String, String)]) -> (r: ContainerSetup)
    requires
        c.common.container_env.wf(),
    ensures
        r.base_image@ == image_tag_of(cwd@),
        lines_view(r.run_args@) == setup_run_args(c.common, c.run_args@, c.workspace_mount, cwd@, config_path@, local_env@),
        r.override_command == c.common.override_command,
{
    ContainerSetup {
        base_image: image_tag(cwd),
        run_args: run_args_for(&c.common, c.run_args.as_slice(), &c.workspace_mount, cwd, config_path, local_env),
        override_command: c.common.override_command,
    }
}

/// The container of a configuration with a `build` section: the image built for the
/// workspace.
pub fn from_dockerfile_build(
    c: &DockerfileBuildConfig,
    cwd: &str,
    config_path: &str,
    local_env: &[(String, String)],
) -> (r: ContainerSetup)
    requires
        c.common.container_env.wf(),
    ensures
        r.base_image@ == image_tag_of(cwd@),
        lines_view(r.run_args@) == setup_run_args(c.common, c.run_args@, c.workspace_mount, cwd@, config_path@, local_env@),
        r.override_command == c.common.override_command,
{
    ContainerSetup {
        base_image: image_tag(cwd),
        run_args: run_args_for(&c.common, c.run_args.as_slice(), &c.workspace_mount, cwd, config_path, local_env),
        override_command: c.common.override_command,
    }
}

/// What `config` starts: one container for an image or Dockerfile configuration, a
/// Compose project for a Compose one.
pub fn from_config(
    config: &DevcontainerConfig,
    cwd: &str,
    config_path: &str,
    config_dir: &str,
    local_env: &[(String, String)],
) -> (r: ContainerTarget)
    requires
        config.common_env_wf(),
    ensures
        match (*config, r) {
            (DevcontainerConfig::Image(c), ContainerTarget::Single(s)) => s.base_image@ == c.image@
                && lines_view(s.run_args@) == setup_run_args(c.common, c.run_args@, c.workspace_mount, cwd@, config_path@, local_env@)
                && s.override_command == c.common.override_command,
            (DevcontainerConfig::Dockerfile(c), ContainerTarget::Single(s)) => s.base_image@ == image_tag_of(cwd@)
                && lines_view(s.run_args@) == setup_run_args(c.common, c.run_args@, c.workspace_mount, cwd@, config_path@, local_env@)
                && s.override_command == c.common.override_command,
            (DevcontainerConfig::DockerfileBuild(c), ContainerTarget::Single(s)) => s.base_image@ == image_tag_of(cwd@)
                && lines_view(s.run_args@) == setup_run_args(c.common, c.run_args@, c.workspace_mount, cwd@, config_path@, local_env@)
                && s.override_command == c.common.override_command,
            (DevcontainerConfig::DockerCompose(c), ContainerTarget::Compose(a)) => compose_args_fit(a, c, cwd@, config_dir@),
            _ => false,
        },
{
    match config {
        DevcontainerConfig::Image(c) => ContainerTarget::Single(from_image(c, cwd, config_path, local_env)),
        DevcontainerConfig::Dockerfile(c) => ContainerTarget::Single(from_dockerfile(c, cwd, config_path, local_env)),
        DevcontainerConfig::DockerfileBuild(c) => ContainerTarget::Single(
            from_dockerfile_build(c, cwd, config_path, local_env),
        ),
        DevcontainerConfig::DockerCompose(c) => ContainerTarget::Compose(compose_args(c, cwd, config_dir)),
    }
}

} // verus!
