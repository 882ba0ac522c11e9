use vstd::prelude::*;

use crate::devcontainer::config::{opt_text, CommonConfig};
use crate::devcontainer::metadata::{replace_first, replace_first_exec};
use crate::docker::tag::image_tag_of;
use crate::features::source::has_prefix;
use crate::text::{chars_of, push_str, same_text, starts_at, string_of};

verus! {

/// The Dockerfile that moves the remote user of an image to the host's UID and GID.
pub const UPDATE_UID_DOCKERFILE: &'static str = "ARG BASE_IMAGE\nFROM $BASE_IMAGE\n\nUSER root\n\nARG REMOTE_USER\nARG NEW_UID\nARG NEW_GID\nSHELL [\"/bin/sh\", \"-c\"]\nRUN eval $(sed -n \"s/${REMOTE_USER}:[^:]*:\\([^:]*\\):\\([^:]*\\):[^:]*:\\([^:]*\\).*/OLD_UID=\\1;OLD_GID=\\2;HOME_FOLDER=\\3/p\" /etc/passwd); \\\n\teval $(sed -n \"s/\\([^:]*\\):[^:]*:${NEW_UID}:.*/EXISTING_USER=\\1/p\" /etc/passwd); \\\n\teval $(sed -n \"s/\\([^:]*\\):[^:]*:${NEW_GID}:.*/EXISTING_GROUP=\\1/p\" /etc/group); \\\n\tif [ -z \"$OLD_UID\" ]; then \\\n\t\techo \"Remote user not found in /etc/passwd ($REMOTE_USER).\"; \\\n\telif [ \"$OLD_UID\" = \"$NEW_UID\" -a \"$OLD_GID\" = \"$NEW_GID\" ]; then \\\n\t\techo \"UIDs and GIDs are the same ($NEW_UID:$NEW_GID).\"; \\\n\telif [ \"$OLD_UID\" != \"$NEW_UID\" -a -n \"$EXISTING_USER\" ]; then \\\n\t\techo \"User with UID exists ($EXISTING_USER=$NEW_UID).\"; \\\n\telse \\\n\t\tif [ \"$OLD_GID\" != \"$NEW_GID\" -a -n \"$EXISTING_GROUP\" ]; then \\\n\t\t\techo \"Group with GID exists ($EXISTING_GROUP=$NEW_GID).\"; \\\n\t\t\tNEW_GID=\"$OLD_GID\"; \\\n\t\tfi; \\\n\t\techo \"Updating UID:GID from $OLD_UID:$OLD_GID to $NEW_UID:$NEW_GID.\"; \\\n\t\tsed -i -e \"s/\\(${REMOTE_USER}:[^:]*:\\)[^:]*:[^:]*/\\1${NEW_UID}:${NEW_GID}/\" /etc/passwd; \\\n\t\tif [ \"$OLD_GID\" != \"$NEW_GID\" ]; then \\\n\t\t\tsed -i -e \"s/\\([^:]*:[^:]*:\\)${OLD_GID}:/\\1${NEW_GID}:/\" /etc/group; \\\n\t\tfi; \\\n\t\tchown -R $NEW_UID:$NEW_GID $HOME_FOLDER; \\\n\tfi;\n\nARG IMAGE_USER\nUSER $IMAGE_USER\n";

/// The image a UID update builds on.
pub enum UidContext<'a> {
    Single { base_image: &'a str, image_user: &'a str },
    Compose { override_content: &'a str, service: &'a str, image: &'a str, image_user: &'a str },
}

/// A UID update to perform before the container starts.
pub enum UidUpdate {
    Single { uid_tag: String, remote_user: String, new_uid: u32, new_gid: u32, image_user: String },
    Compose {
        uid_tag: String,
        remote_user: String,
        new_uid: u32,
        new_gid: u32,
        image_user: String,
        override_content: String,
    },
}

impl UidUpdate {
    /// The tag of the image the update builds.
    pub fn uid_tag(&self) -> (r: &str)
        ensures
            match self {
                UidUpdate::Single { uid_tag, .. } => r@ == uid_tag@,
                UidUpdate::Compose { uid_tag, .. } => r@ == uid_tag@,
            },
    {
        match self {
            UidUpdate::Single { uid_tag, .. } => uid_tag.as_str(),
            UidUpdate::Compose { uid_tag, .. } => uid_tag.as_str(),
        }
    }
}

/// What to do about the remote user's UID.
#[derive(Debug, PartialEq)]
pub enum RemoteUserResolution {
    /// Move this named user to the host's UID.
    Update { user: String },
    /// The user is root: nothing to do.
    Root,
    /// The user is given by number: nothing to do.
    Numeric,
}

pub open spec fn all_digits(s: Seq<char>) -> bool {
    forall|i: int| 0 <= i < s.len() ==> '0' <= #[trigger] s[i] && s[i] <= '9'
}

/// The user the container runs as: the configured remote user, else the container
/// user, else the image's user; `root` where that is empty.
pub open spec fn effective_user(config_user: Option<Seq<char>>, container_user: Option<Seq<char>>, image_user: Seq<char>) -> Seq<char> {
    let u = match config_user {
        Some(c) => c,
        None => match container_user {
            Some(c) => c,
            None => image_user,
        },
    };
    if u.len() == 0 {
        "root"@
    } else {
        u
    }
}

pub open spec fn opt_str(o: Option<&str>) -> Option<Seq<char>> {
    match o {
        Some(s) => Some(s@),
        None => None,
    }
}

/// Decides whose UID to update: none for root or a numeric user, else the user.
#[verifier::loop_isolation(false)]
pub fn resolve_remote_user(
    config_user: Option<&str>,
    container_user: Option<&str>,
    image_user: &str,
) -> (r: RemoteUserResolution)
    ensures
        ({
            let u = effective_user(opt_str(config_user), opt_str(container_user), image_user@);
            if u == "root"@ {
                r is Root
            } else if all_digits(u) {
                r is Numeric
            } else {
                r matches RemoteUserResolution::Update { user } && user@ == u
            }
        }),
{
    let chosen = match config_user {
        Some(c) => c,
        None => match container_user {
            Some(c) => c,
            None => image_user,
        },
    };
    let user = if chosen.is_empty() {
        "root"
    } else {
        chosen
    };
    if same_text(user, "root") {
        return RemoteUserResolution::Root;
    }
    let v = chars_of(user);
    let mut i: usize = 0;
    while i < v.len()
        invariant
            i <= v.len(),
            forall|k: int| 0 <= k < i ==> '0' <= #[trigger] v@[k] && v@[k] <= '9',
        decreases v.len() - i,
    {
        if !('0' <= v[i] && v[i] <= '9') {
            assert(!all_digits(v@)) by {
                assert(!('0' <= v@[i as int] && v@[i as int] <= '9'));
            }
            return RemoteUserResolution::Update { user: user.to_owned() };
        }
        i += 1;
    }
    RemoteUserResolution::Numeric
}

/// The tag of the image with the updated UID: the base image's tag and `-uid` where
/// the base image is the workspace's own build, else the workspace's tag and `-uid`.
pub open spec fn uid_tag_of(base_image: Seq<char>, cwd: Seq<char>) -> Seq<char> {
    let folder_tag = image_tag_of(cwd);
    if has_prefix(base_image, folder_tag) {
        base_image + "-uid"@
    } else {
        folder_tag + "-uid"@
    }
}

pub open spec fn image_user_or_root(u: Seq<char>) -> Seq<char> {
    if u.len() == 0 {
        "root"@
    } else {
        u
    }
}

pub open spec fn context_image(ctx: UidContext) -> (Seq<char>, Seq<char>) {
    match ctx {
        UidContext::Single { base_image, image_user } => (base_image@, image_user@),
        UidContext::Compose { image, image_user, .. } => (image@, image_user@),
    }
}

impl UidUpdate {
    /// The update of the remote user's UID and GID to the host's, unless the
    /// configuration turns it off or the remote user is root or numeric; for Compose,
    /// the override file also points the service at the updated image.
    pub fn resolve(ctx: UidContext, common: &CommonConfig, host_uid: u32, host_gid: u32, cwd: &str) -> (r: Option<UidUpdate>)
        ensures
            ({
                let (base, iu) = context_image(ctx);
                let u = effective_user(opt_text(common.remote_user), opt_text(common.container_user), iu);
                if common.update_remote_user_uid == Some(false) || u == "root"@ || all_digits(u) {
                    r is None
                } else {
                    let tag = uid_tag_of(base, cwd@);
                    match ctx {
                        UidContext::Single { .. } => r matches Some(UidUpdate::Single { uid_tag, remote_user, new_uid, new_gid, image_user })
                            && uid_tag@ == tag && remote_user@ == u && new_uid == host_uid && new_gid == host_gid
                            && image_user@ == image_user_or_root(iu),
                        UidContext::Compose { override_content, service, .. } => r matches Some(UidUpdate::Compose {
                            uid_tag,
                            remote_user,
                            new_uid,
                            new_gid,
                            image_user,
                            override_content: content,
                        }) && uid_tag@ == tag && remote_user@ == u && new_uid == host_uid && new_gid == host_gid
                            && image_user@ == image_user_or_root(iu)
                            && content@ == replace_first(
                                override_content@,
                                "  '"@ + service@ + "':\n"@,
                                "  '"@ + service@ + "':\n    image: "@ + tag + "\n"@,
                            ),
                    }
                }
            }),
    {
        if common.update_remote_user_uid == Some(false) {
            return None;
        }
        let (base_image, image_user) = match &ctx {
            UidContext::Single { base_image, image_user } => (*base_image, *image_user),
            UidContext::Compose { image, image_user, .. } => (*image, *image_user),
        };
        let config_user: Option<&str> = match &common.remote_user {
            Some(s) => Some(s.as_str()),
            None => None,
        };
        let container_user: Option<&str> = match &common.container_user {
            Some(s) => Some(s.as_str()),
            None => None,
        };
        let remote_user = match resolve_remote_user(config_user, container_user, image_user) {
            RemoteUserResolution::Update { user } => user,
            _ => return None,
        };
        let folder_tag = crate::docker::image_tag(cwd);
        let b = chars_of(base_image);
        let ft = chars_of(folder_tag.as_str());
        let mut tag: Vec<char> = Vec::new();
        if ft.len() <= b.len() && starts_at(b.as_slice(), 0, ft.as_slice()) {
            assert(b@.take(ft.len() as int) =~= b@.subrange(0, ft.len() as int));
            push_str(&mut tag, base_image);
        } else {
            proof {
                if has_prefix(base_image@, folder_tag@) {
                    assert(b@.subrange(0, ft.len() as int) =~= b@.take(ft.len() as int));
                }
            }
            push_str(&mut tag, folder_tag.as_str());
        }
        push_str(&mut tag, "-uid");
        let uid_tag = string_of(tag.as_slice());
        let iu: String = if chars_of(image_user).len() == 0 {
            "root".to_owned()
        } else {
            image_user.to_owned()
        };
        match ctx {
            UidContext::Single { .. } => Some(UidUpdate::Single {
                uid_tag,
                remote_user,
                new_uid: host_uid,
                new_gid: host_gid,
                image_user: iu,
            }),
            UidContext::Compose { override_content, service, .. } => {
                let mut pat: Vec<char> = Vec::new();
                push_str(&mut pat, "  '");
                push_str(&mut pat, service);
                push_str(&mut pat, "':\n");
                let mut rep: Vec<char> = Vec::new();
                push_str(&mut rep, "  '");
                push_str(&mut rep, service);
                push_str(&mut rep, "':\n    image: ");
                push_str(&mut rep, uid_tag.as_str());
                push_str(&mut rep, "\n");
                let out = replace_first_exec(&chars_of(override_content), &pat, &rep);
                assert(rep@ =~= "  '"@ + service@ + "':\n"@ + "    image: "@ + uid_tag@ + "\n"@) by {
                    reveal_strlit("':\n    image: ");
                    reveal_strlit("':\n");
                    reveal_strlit("    image: ");
                }
                Some(UidUpdate::Compose {
                    uid_tag,
                    remote_user,
                    new_uid: host_uid,
                    new_gid: host_gid,
                    image_user: iu,
                    override_content: string_of(out.as_slice()),
                })
            },
        }
    }
}

} // verus!
