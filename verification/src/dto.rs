//! The records as they are handed to clients.

use vstd::prelude::*;
use vstd::std_specs::convert::FromSpecImpl;
use crate::models::{ConfluenceModel, ProfileModel, SubscribeSourceModel};

verus! {

#[derive(Clone, Debug, PartialEq, Eq)]
pub struct ProfileDto {
    pub id: i32,
    pub confluence_id: i32,
    pub created_at: i64,
    pub updated_at: i64,
    pub resource_token: String,
}

#[derive(Clone, Debug, PartialEq, Eq)]
pub struct SubscribeSourceDto {
    pub id: i32,
    pub url: String,
    pub created_at: i64,
    pub updated_at: i64,
    pub confluence_id: i32,
    pub name: String,
    pub content: String,
    pub sub_upload: Option<i64>,
    pub sub_download: Option<i64>,
    pub sub_total: Option<i64>,
    pub sub_expire: Option<i64>,
    pub passive_sync: Option<bool>,
    pub proxy_server: Option<String>,
    pub proxy_auth: Option<String>,
}

/// The source `value` as it is handed out: field by field.
pub open spec fn source_dto(value: SubscribeSourceModel) -> SubscribeSourceDto {
    SubscribeSourceDto {
        id: value.id,
        url: value.url,
        confluence_id: value.confluence_id,
        created_at: value.created_at,
        updated_at: value.updated_at,
        name: value.name,
        content: value.content,
        sub_download: value.sub_download,
        sub_expire: value.sub_expire,
        sub_total: value.sub_total,
        sub_upload: value.sub_upload,
        passive_sync: value.passive_sync,
        proxy_auth: value.proxy_auth,
        proxy_server: value.proxy_server,
    }
}

impl From<SubscribeSourceModel> for SubscribeSourceDto {
    fn from(value: SubscribeSourceModel) -> (r: Self) {
        SubscribeSourceDto {
            id: value.id,
            url: value.url,
            confluence_id: value.confluence_id,
            created_at: value.created_at,
            updated_at: value.updated_at,
            name: value.name,
            content: value.content,
            sub_download: value.sub_download,
            sub_expire: value.sub_expire,
            sub_total: value.sub_total,
            sub_upload: value.sub_upload,
            passive_sync: value.passive_sync,
            proxy_auth: value.proxy_auth,
            proxy_server: value.proxy_server,
        }
    }
}

impl FromSpecImpl<SubscribeSourceModel> for SubscribeSourceDto {
    open spec fn obeys_from_spec() -> bool {
        true
    }

    open spec fn from_spec(value: SubscribeSourceModel) -> Self {
        source_dto(value)
    }
}

/// The profile `value` as it is handed out: field by field.
pub open spec fn profile_dto(value: ProfileModel) -> ProfileDto {
    ProfileDto {
        id: value.id,
        confluence_id: value.confluence_id,
        created_at: value.created_at,
        updated_at: value.updated_at,
        resource_token: value.resource_token,
    }
}

impl From<ProfileModel> for ProfileDto {
    fn from(value: ProfileModel) -> (r: Self) {
        ProfileDto {
            id: value.id,
            confluence_id: value.confluence_id,
            created_at: value.created_at,
            updated_at: value.updated_at,
            resource_token: value.resource_token,
        }
    }
}

impl FromSpecImpl<ProfileModel> for ProfileDto {
    open spec fn obeys_from_spec() -> bool {
        true
    }

    open spec fn from_spec(value: ProfileModel) -> Self {
        profile_dto(value)
    }
}

#[derive(Clone, Debug, PartialEq, Eq)]
pub struct ConfluenceDto {
    pub id: i32,
    pub template: String,
    pub creator: String,
    pub created_at: i64,
    pub updated_at: i64,
    pub mux_content: String,
    pub subscribe_sources: Vec<SubscribeSourceDto>,
    pub profiles: Vec<ProfileDto>,
    pub name: String,
    pub sub_upload: Option<i64>,
    pub sub_download: Option<i64>,
    pub sub_total: Option<i64>,
    pub sub_expire: Option<i64>,
    pub cron_expr: Option<String>,
    pub cron_expr_tz: Option<String>,
    pub cron_prev_at: Option<i64>,
    pub cron_err: Option<String>,
    pub cron_next_at: Option<i64>,
    pub user_agent: String,
}

impl ConfluenceDto {
    /// The merged document `confluence` as it is handed out, with its
    /// sources and profiles, each in its order: field by field.
    pub fn from_orm(
        confluence: ConfluenceModel,
        sms: Vec<SubscribeSourceModel>,
        pms: Vec<ProfileModel>,
    ) -> (r: Self)
        ensures
            r.id == confluence.id,
            r.template == confluence.template,
            r.created_at == confluence.created_at,
            r.updated_at == confluence.updated_at,
            r.creator == confluence.creator,
            r.mux_content == confluence.mux_content,
            r.name == confluence.name,
            r.sub_download == confluence.sub_download,
            r.sub_expire == confluence.sub_expire,
            r.sub_total == confluence.sub_total,
            r.sub_upload == confluence.sub_upload,
            r.cron_expr == confluence.cron_expr,
            r.cron_expr_tz == confluence.cron_expr_tz,
            r.cron_prev_at == confluence.cron_prev_at,
            r.cron_err == confluence.cron_err,
            r.cron_next_at == confluence.cron_next_at,
            r.user_agent == confluence.user_agent,
            r.subscribe_sources@ == sms@.map_values(|s: SubscribeSourceModel| source_dto(s)),
            r.profiles@ == pms@.map_values(|p: ProfileModel| profile_dto(p)),
    {
        let mut sms = sms;
        let mut pms = pms;
        let ghost sources = sms@;
        let ghost tokens = pms@;
        let mut subscribe_sources: Vec<SubscribeSourceDto> = Vec::new();
        let mut profiles: Vec<ProfileDto> = Vec::new();
        while sms.len() > 0
            invariant
                sms@.len() + subscribe_sources@.len() == sources.len(),
                sms@ == sources.subrange(subscribe_sources@.len() as int, sources.len() as int),
                forall|k: int|
                    0 <= k < subscribe_sources@.len() ==> #[trigger] subscribe_sources@[k]
                        == source_dto(sources[k]),
            decreases sms.len(),
        {
            let s = sms.remove(0);
            subscribe_sources.push(SubscribeSourceDto::from(s));
            proof {
                assert(sms@ =~= sources.subrange(
                    subscribe_sources@.len() as int,
                    sources.len() as int,
                ));
            }
        }
        while pms.len() > 0
            invariant
                pms@.len() + profiles@.len() == tokens.len(),
                pms@ == tokens.subrange(profiles@.len() as int, tokens.len() as int),
                forall|k: int|
                    0 <= k < profiles@.len() ==> #[trigger] profiles@[k] == profile_dto(
                        tokens[k],
                    ),
            decreases pms.len(),
        {
            let p = pms.remove(0);
            profiles.push(ProfileDto::from(p));
            proof {
                assert(pms@ =~= tokens.subrange(profiles@.len() as int, tokens.len() as int));
            }
        }
        proof {
            assert(subscribe_sources@ =~= sources.map_values(
                |s: SubscribeSourceModel| source_dto(s),
            ));
            assert(profiles@ =~= tokens.map_values(|p: ProfileModel| profile_dto(p)));
        }
        ConfluenceDto {
            id: confluence.id,
            template: confluence.template,
            created_at: confluence.created_at,
            updated_at: confluence.updated_at,
            creator: confluence.creator,
            mux_content: confluence.mux_content,
            subscribe_sources,
            profiles,
            name: confluence.name,
            sub_download: confluence.sub_download,
            sub_expire: confluence.sub_expire,
            sub_total: confluence.sub_total,
            sub_upload: confluence.sub_upload,
            cron_expr: confluence.cron_expr,
            cron_expr_tz: confluence.cron_expr_tz,
            cron_prev_at: confluence.cron_prev_at,
            cron_err: confluence.cron_err,
            cron_next_at: confluence.cron_next_at,
            user_agent: confluence.user_agent,
        }
    }
}

#[derive(Clone, Debug, PartialEq, Eq)]
pub struct ProfileCreationDto {
    pub confluence_id: i32,
}

#[derive(Clone, Debug, PartialEq, Eq)]
pub struct SubscribeSourceCreationDto {
    pub confluence_id: i32,
    pub url: String,
    pub name: String,
    pub passive_sync: Option<bool>,
    pub proxy_server: Option<String>,
    pub proxy_auth: Option<String>,
}

#[derive(Clone, Debug, PartialEq, Eq)]
pub struct SubscribeSourceUpdateDto {
    pub url: Option<String>,
    pub name: Option<String>,
    pub content: Option<String>,
    pub passive_sync: Option<bool>,
    pub proxy_server: Option<String>,
    pub proxy_auth: Option<String>,
}

#[derive(Clone, Debug, PartialEq, Eq)]
pub struct ConfluenceUpdateDto {
    pub template: Option<String>,
    pub user_agent: Option<String>,
    pub name: Option<String>,
}

#[derive(Clone, Debug, PartialEq, Eq)]
pub struct ConfluenceUpdateCronDto {
    pub cron_expr: String,
    pub cron_expr_tz: String,
}

} // verus!
