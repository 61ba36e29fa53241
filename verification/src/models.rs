//! The stored records, with every instant as milliseconds since the epoch.

use vstd::prelude::*;
use vstd::string::*;

verus! {

/// A merged document with its template and what is known of its schedule.
#[derive(Clone, Debug, PartialEq, Eq)]
pub struct ConfluenceModel {
    pub id: i32,
    pub name: String,
    pub template: String,
    pub creator: String,
    pub created_at: i64,
    pub updated_at: i64,
    pub mux_content: String,
    pub sub_upload: Option<i64>,
    pub sub_download: Option<i64>,
    pub sub_total: Option<i64>,
    pub sub_expire: Option<i64>,
    pub cron_expr: Option<String>,
    pub cron_expr_tz: Option<String>,
    pub cron_prev_at: Option<i64>,
    pub cron_err: Option<String>,
    pub cron_next_at: Option<i64>,
    pub user_agent: String,
}

/// The user agent that sources are fetched with where none is set.
pub const DEFAULT_USER_AGENT: &'static str = "clash-verge/v2.0.3";

impl ConfluenceModel {
    /// The user agent to fetch the sources with: the one that is set, or the
    /// default where none is.
    pub fn user_agent_or_default(&self) -> (r: &str)
        ensures
            r@ == if self.user_agent@.len() == 0 {
                DEFAULT_USER_AGENT@
            } else {
                self.user_agent@
            },
    {
        if self.user_agent.as_str().unicode_len() == 0 {
            DEFAULT_USER_AGENT
        } else {
            self.user_agent.as_str()
        }
    }
}

/// One source of a merged document.
#[derive(Clone, Debug, PartialEq, Eq)]
pub struct SubscribeSourceModel {
    pub id: i32,
    pub url: String,
    pub created_at: i64,
    pub updated_at: i64,
    pub confluence_id: i32,
    pub name: String,
    pub content: String,
    pub sub_upload: Option<i64>,
    pub sub_download: Option<i64>,
    pub sub_total: Option<i64>,
    pub sub_expire: Option<i64>,
    pub passive_sync: Option<bool>,
    pub proxy_server: Option<String>,
    pub proxy_auth: Option<String>,
}

impl SubscribeSourceModel {
    /// Whether the source is fetched when its merged document is synced:
    /// only where passive sync is switched on.
    pub fn syncs_passively(&self) -> (r: bool)
        ensures
            r == (self.passive_sync == Some(true)),
    {
        match self.passive_sync {
            Some(on) => on,
            None => false,
        }
    }
}

/// A token under which a merged document is handed out.
#[derive(Clone, Debug, PartialEq, Eq)]
pub struct ProfileModel {
    pub id: i32,
    pub confluence_id: i32,
    pub created_at: i64,
    pub updated_at: i64,
    pub resource_token: String,
}

} // verus!
