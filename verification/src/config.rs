//! The configuration of a run.

use crate::components::ComponentMap;
use crate::github::GitHubIssueProvider;
use crate::github::ProviderView;
use crate::labels::texts_of;
use crate::status::ComponentStatus;
use crate::types::Component;
use crate::types::ComponentView;
use crate::types::Error;
use crate::utils::slug_of;
use crate::utils::slugify;
use std::path::PathBuf;
use vstd::prelude::*;

verus! {

/// A path of the file system. Nothing is known of what it holds.
#[verifier::external_type_specification]
#[verifier::external_body]
pub struct ExPathBuf(std::path::PathBuf);

/// The tracker that holds the issues.
#[derive(Debug)]
pub enum Backend {
    GITHUB,
}

/// The GitHub repository that holds the issues.
#[derive(Debug)]
pub struct GitHub {
    pub owner: String,
    pub repository: String,
}

#[derive(Debug)]
pub struct Config {
    pub backend: Backend,
    /// The display names of the components, in the order in which they are
    /// configured.
    pub components: Vec<String>,
    pub github: Option<GitHub>,
    pub output_dir: PathBuf,
    pub template_dir: PathBuf,
}

/// The registry that holds a component for each of `names`, operational and
/// under the slug of its name. Of two names with one slug the later one stays.
pub open spec fn registered(names: Seq<Seq<char>>) -> Map<Seq<char>, ComponentView>
    decreases names.len(),
{
    if names.len() == 0 {
        Map::empty()
    } else {
        registered(names.drop_last()).insert(
            slug_of(names.last()),
            ComponentView { name: names.last(), status: ComponentStatus::Operational },
        )
    }
}

impl Config {
    /// The provider for the selected backend. The run cannot start where the
    /// configuration holds no block for that backend.
    pub fn issue_provider(&self) -> (r: Result<GitHubIssueProvider, Error>)
        ensures
            match self.github {
                Some(github) => r matches Ok(provider) && provider@ == (ProviderView {
                    owner: github.owner@,
                    repository: github.repository@,
                    open_issues: Seq::empty(),
                    closed_issues: Seq::empty(),
                }),
                None => r matches Err(e) && e == Error::MissingBackendConfig,
            },
    {
        match self.backend {
            Backend::GITHUB => match &self.github {
                Some(github) => Ok(
                    GitHubIssueProvider::new(github.owner.clone(), github.repository.clone()),
                ),
                None => Err(Error::MissingBackendConfig),
            },
        }
    }

    /// The registry of the configured components, all operational.
    pub fn component_map(&self) -> (components: ComponentMap)
        ensures
            components@ == registered(texts_of(self.components@)),
    {
        let ghost all = texts_of(self.components@);
        let mut components: ComponentMap = ComponentMap::new();
        let mut i: usize = 0;
        assert(all.take(0) =~= Seq::<Seq<char>>::empty());
        while i < self.components.len()
            invariant
                i <= self.components@.len(),
                all == texts_of(self.components@),
                components@ == registered(all.take(i as int)),
            decreases self.components@.len() - i,
        {
            let slug: String = slugify(self.components[i].as_str());
            components.insert(slug, Component::new(self.components[i].clone()));
            proof {
                let next = all.take(i + 1);
                assert(next.drop_last() =~= all.take(i as int));
                assert(next.last() == all[i as int]);
            }
            i = i + 1;
        }
        assert(all.take(i as int) =~= all);
        components
    }
}

} // verus!
