//! Pull-request preparation and failure classification.
//!
//! The network call happens outside the engine. The library decides what the
//! call should be given (credential and base branch) and turns the git
//! layer's failure text into the structured messages the caller displays.

use vstd::prelude::*;

verus! {

use crate::Id;
use crate::model::{CreateGitHubPRRequest, EngineError, opt_view, text_of};
use crate::store::Store;
use crate::text::{spec_blank, has_substring};

/// The caller's hosting configuration: a sign-in token, an optional personal
/// access token that takes precedence, and a default base branch for pull
/// requests.
#[derive(Clone, Debug)]
pub struct GitHubConfig {
    pub token: Option<String>,
    pub pat: Option<String>,
    pub default_pr_base: Option<String>,
}

/// What preparing a pull request concluded: everything the outer call needs,
/// or the structured message that authentication is not configured.
#[derive(Clone, Debug)]
pub enum PrPreparation {
    Ready { token: String, base_branch: String },
    AuthMissing { message: String },
}

/// Why a pull-request creation failed, as the git and hosting layers report
/// it.
#[derive(Clone, Debug)]
pub enum PrFailure {
    /// The hosting layer rejected the sign-in token outright.
    TokenInvalid,
    /// A git-transport error with its message text.
    GitMessage { message: String },
    /// Anything else, with its display text.
    Other { message: String },
}

/// The base branch a pull request targets: the requested one; else the
/// attempt's stored base when it is not blank; else the configured default;
/// else `main`.
pub open spec fn spec_pr_base(
    request_base: Option<Seq<char>>,
    attempt_base: Seq<char>,
    config_default: Option<Seq<char>>,
) -> Seq<char> {
    match request_base {
        Option::Some(b) => b,
        Option::None => if !spec_blank(attempt_base) {
            attempt_base
        } else {
            match config_default {
                Option::Some(d) => d,
                Option::None => "main"@,
            }
        },
    }
}

/// The credential handed to the hosting layer: the personal access token
/// when one is configured, else the sign-in token.
pub open spec fn spec_pr_token(token: Seq<char>, pat: Option<Seq<char>>) -> Seq<char> {
    match pat {
        Option::Some(p) => p,
        Option::None => token,
    }
}

/// Prepare a pull request: validate the triple, demand a configured token,
/// and resolve credential and base branch.
pub fn prepare_github_pr(
    store: &Store,
    project_id: Id,
    task_id: Id,
    attempt_id: Id,
    request: &CreateGitHubPRRequest,
    config: &GitHubConfig,
) -> (r: Result<PrPreparation, EngineError>)
    ensures
        match r {
            Result::Ok(prep) => store.triple_ok(project_id, task_id, attempt_id) && match prep {
                PrPreparation::AuthMissing { message } => config.token is None && message@
                    == "GitHub authentication not configured. Please sign in with GitHub."@,
                PrPreparation::Ready { token, base_branch } => {
                    &&& config.token is Some
                    &&& token@ == spec_pr_token(
                        opt_view(config.token)->Some_0,
                        opt_view(config.pat),
                    )
                    &&& base_branch@ == spec_pr_base(
                        opt_view(request.base_branch),
                        store.attempt_of(attempt_id)->Some_0.base_branch,
                        opt_view(config.default_pr_base),
                    )
                },
            },
            Result::Err(EngineError::NotFound) => !store.triple_ok(project_id, task_id, attempt_id),
            _ => false,
        },
{
    if !store.exists_for_task(attempt_id, task_id, project_id) {
        return Result::Err(EngineError::NotFound);
    }
    let token = match &config.token {
        Option::Some(t) => t.clone(),
        Option::None => {
            return Result::Ok(
                PrPreparation::AuthMissing {
                    message: String::from_str(
                        "GitHub authentication not configured. Please sign in with GitHub.",
                    ),
                },
            );
        },
    };
    let attempt_base = match store.find_attempt(attempt_id) {
        Option::Some(a) => a.base_branch.clone(),
        Option::None => String::new(),
    };
    let base_branch = match &request.base_branch {
        Option::Some(b) => b.clone(),
        Option::None => {
            if !crate::text::is_blank(attempt_base.as_str()) {
                attempt_base
            } else {
                match &config.default_pr_base {
                    Option::Some(d) => d.clone(),
                    Option::None => String::from_str("main"),
                }
            }
        },
    };
    let credential = match &config.pat {
        Option::Some(p) => p.clone(),
        Option::None => token,
    };
    Result::Ok(PrPreparation::Ready { token: credential, base_branch })
}

/// The message a pull-request failure maps to: the token and permission
/// subkinds the git layer's text reveals, or a generic failure line carrying
/// the text.
pub open spec fn spec_classify_pr_failure(f: PrFailure) -> Seq<char> {
    match f {
        PrFailure::TokenInvalid => "github_token_invalid"@,
        PrFailure::GitMessage { message } => if has_substring(
            message@,
            "too many redirects or authentication replays"@,
        ) {
            "insufficient_github_permissions"@
        } else if has_substring(message@, "status code: 403"@) {
            "insufficient_github_permissions"@
        } else if has_substring(message@, "status code: 404"@) {
            "github_repo_not_found_or_no_access"@
        } else {
            "Failed to create PR: "@ + message@
        },
        PrFailure::Other { message } => "Failed to create PR: "@ + message@,
    }
}

/// Map a pull-request failure to the message the caller receives.
pub fn classify_pr_failure(f: &PrFailure) -> (r: String)
    ensures
        r@ == spec_classify_pr_failure(*f),
{
    match f {
        PrFailure::TokenInvalid => String::from_str("github_token_invalid"),
        PrFailure::GitMessage { message } => {
            if crate::text::contains_sub(
                message.as_str(),
                "too many redirects or authentication replays",
            ) {
                String::from_str("insufficient_github_permissions")
            } else if crate::text::contains_sub(message.as_str(), "status code: 403") {
                String::from_str("insufficient_github_permissions")
            } else if crate::text::contains_sub(message.as_str(), "status code: 404") {
                String::from_str("github_repo_not_found_or_no_access")
            } else {
                String::from_str("Failed to create PR: ").concat(message.as_str())
            }
        },
        PrFailure::Other { message } => String::from_str("Failed to create PR: ").concat(
            message.as_str(),
        ),
    }
}

} // verus!
