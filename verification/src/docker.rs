pub mod containers;
pub mod inspect;
pub mod command;
pub mod tag;
pub mod tag_laws;

pub use command::{CmdOutput, Docker};
pub use containers::{parse_container_id, parse_container_ids, Container};
pub use inspect::{find_container, parse_image_config_json, parse_remote_user_from_metadata, ImageConfig};

use vstd::prelude::*;

verus! {

/// The image tag for the workspace folder `local_folder` (see [`tag::image_tag`]).
pub fn image_tag(local_folder: &str) -> (r: String)
    ensures
        r@ == tag::image_tag_of(local_folder@),
{
    tag::image_tag(local_folder)
}

} // verus!
