use vstd::prelude::*;

verus! {

/// Which users a feature is installed for, as far as they are named.
pub enum FeatureInstallUsers {
    BothNamed { container: String, remote: String },
    ContainerOnly(String),
    RemoteOnly(String),
    NeitherNamed,
}

impl FeatureInstallUsers {
    /// The users named by the container user and the remote user, where given.
    pub fn new(container_user: Option<&str>, remote_user: Option<&str>) -> (r: Self)
        ensures
            match (container_user, remote_user) {
                (Some(c), Some(u)) => r matches FeatureInstallUsers::BothNamed { container, remote }
                    && container@ == c@ && remote@ == u@,
                (Some(c), None) => r matches FeatureInstallUsers::ContainerOnly(x) && x@ == c@,
                (None, Some(u)) => r matches FeatureInstallUsers::RemoteOnly(x) && x@ == u@,
                (None, None) => r is NeitherNamed,
            },
    {
        match (container_user, remote_user) {
            (Some(c), Some(u)) => FeatureInstallUsers::BothNamed { container: c.to_owned(), remote: u.to_owned() },
            (Some(c), None) => FeatureInstallUsers::ContainerOnly(c.to_owned()),
            (None, Some(u)) => FeatureInstallUsers::RemoteOnly(u.to_owned()),
            (None, None) => FeatureInstallUsers::NeitherNamed,
        }
    }
}

} // verus!
