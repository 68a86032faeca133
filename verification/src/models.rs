//! What is asked of the controller, and what it answers.

use vstd::prelude::*;
use vstd::string::*;

use crate::acl::{AclAction, IpProtocol, PortRange};
use crate::config::{ClientConfigModel, ClientOptions, ConfigChange};
use crate::ids::Uuid;
use crate::ipv4::{Ipv4Addr, Ipv4Net};

verus! {

/// A one-time token and the password to set with it.
#[derive(Debug, Clone, PartialEq, Eq)]
pub struct EnrollRequest {
    pub token: String,
    pub password: String,
}

/// A one-time token that was issued.
#[derive(Debug, Clone, PartialEq, Eq)]
pub struct IssuedTokenResponse {
    pub user_id: Uuid,
    pub purpose: String,
    /// Returned once; the database stores only its digest and an encrypted mail-job copy.
    pub token: String,
    pub expires_at: String,
}

/// A login with a local password.
#[derive(Debug, Clone, PartialEq, Eq)]
pub struct LocalLoginRequest {
    pub email: String,
    pub password: String,
}

/// Who is logged in.
#[derive(Debug, Clone, PartialEq, Eq)]
pub struct AuthUserResponse {
    pub id: Uuid,
    pub email: String,
    pub name: String,
    pub is_admin: bool,
}

/// The administrator that was set up, and the token to enroll with.
#[derive(Debug, Clone, PartialEq, Eq)]
pub struct BootstrapResult {
    pub user_id: Uuid,
    pub enrollment_token: String,
    pub expires_at: String,
}

/// What runs here.
#[derive(Debug, Clone, PartialEq, Eq)]
pub struct VersionResponse {
    pub name: &'static str,
    pub version: &'static str,
}

/// The settings of the installation.
#[derive(Debug, Clone, PartialEq, Eq)]
pub struct SystemSettingsResponse {
    pub client_pool: Ipv4Net,
    pub default_device_limit: u32,
    pub client_options: ClientOptions,
}

/// A user to create.
#[derive(Debug, Clone, PartialEq, Eq)]
pub struct CreateUserRequest {
    pub email: String,
    pub name: String,
    pub title: String,
}

/// A user.
#[derive(Debug, Clone, PartialEq, Eq)]
pub struct UserResponse {
    pub id: Uuid,
    pub email: String,
    pub name: String,
    pub title: String,
    pub manual_disabled: bool,
    pub ldap_disabled: bool,
    pub disabled: bool,
    pub soft_deleted: bool,
    pub purged: bool,
    pub device_limit: u32,
    pub created_at: String,
}

/// How imported users are written.
#[derive(Debug, Clone, Copy, PartialEq, Eq, Structural)]
pub enum ImportFormat {
    Csv,
    Tsv,
}

/// Users to import.
#[derive(Debug, Clone, PartialEq, Eq)]
pub struct ImportUsersRequest {
    pub format: ImportFormat,
    pub content: String,
}

/// What an import would do with one row.
#[derive(Debug, Clone, PartialEq, Eq)]
pub struct ImportUserRowResponse {
    pub row: usize,
    pub email: String,
    pub name: String,
    pub title: String,
    pub groups: Vec<String>,
    pub action: String,
    pub errors: Vec<String>,
}

/// What an import would do.
#[derive(Debug, Clone, PartialEq, Eq)]
pub struct ImportUsersPreviewResponse {
    pub valid: bool,
    pub creates: usize,
    pub links: usize,
    pub errors: usize,
    pub rows: Vec<ImportUserRowResponse>,
}

/// Whether a user is to be disabled.
#[derive(Debug, Clone, PartialEq, Eq)]
pub struct SetUserDisabledRequest {
    pub disabled: bool,
}

/// A group to create.
#[derive(Debug, Clone, PartialEq, Eq)]
pub struct CreateGroupRequest {
    pub name: String,
}

/// A group.
#[derive(Debug, Clone, PartialEq, Eq)]
pub struct GroupResponse {
    pub id: Uuid,
    pub normalized_name: String,
    pub display_name: String,
    pub members: i64,
}

/// A user to put into a group.
#[derive(Debug, Clone, PartialEq, Eq)]
pub struct SetGroupMemberRequest {
    pub user_id: Uuid,
}

/// A member of a group, and where the membership comes from.
#[derive(Debug, Clone, PartialEq, Eq)]
pub struct GroupMemberResponse {
    pub user_id: Uuid,
    pub email: String,
    pub name: String,
    pub sources: Vec<String>,
}

/// Which backend drives a gateway.
#[derive(Debug, Clone, Copy, PartialEq, Eq, Structural)]
pub enum GatewayKindRequest {
    Linux,
    Mikrotik,
}

impl GatewayKindRequest {
    /// The name of the backend.
    pub open spec fn name(self) -> Seq<char> {
        match self {
            GatewayKindRequest::Linux => "linux"@,
            GatewayKindRequest::Mikrotik => "mikrotik"@,
        }
    }

    /// The name of the backend.
    pub fn as_str(&self) -> (r: &'static str)
        ensures
            r@ == self.name(),
    {
        match self {
            GatewayKindRequest::Linux => "linux",
            GatewayKindRequest::Mikrotik => "mikrotik",
        }
    }
}

/// A site to create.
#[derive(Debug, Clone, PartialEq, Eq)]
pub struct CreateSiteRequest {
    pub name: String,
    pub routes: Vec<Ipv4Net>,
    pub gateway_kind: GatewayKindRequest,
    pub interface_name: String,
    pub endpoint_host: String,
    pub public_port: Option<u16>,
    pub listen_port: Option<u16>,
    pub public_key: Option<String>,
    pub agent_id: Option<Uuid>,
    pub granted_group_ids: Vec<Uuid>,
    pub acl_default: AclAction,
    pub compatibility_address: bool,
}

/// An agent to create.
#[derive(Debug, Clone, PartialEq, Eq)]
pub struct CreateAgentRequest {
    pub name: String,
    pub kind: GatewayKindRequest,
}

/// An agent that was created.
#[derive(Debug, Clone, PartialEq, Eq)]
pub struct CreatedAgentResponse {
    pub id: Uuid,
    pub name: String,
    pub kind: String,
    /// Returned once. Only its SHA-256 digest is persisted.
    pub secret: String,
}

/// An agent.
#[derive(Debug, Clone, PartialEq, Eq)]
pub struct AgentResponse {
    pub id: Uuid,
    pub name: String,
    pub kind: String,
    pub version: Option<String>,
    pub last_seen_at: Option<String>,
    pub online: bool,
}

/// The next secret of an agent.
#[derive(Debug, Clone, PartialEq, Eq)]
pub struct RotatedAgentSecretResponse {
    pub agent_id: Uuid,
    /// Returned once. Only its SHA-256 digest is persisted as the overlapping next secret.
    pub secret: String,
}

/// What happens at a site to packets that no rule speaks of, where nothing was asked for.
pub fn default_acl_action() -> (r: AclAction)
    ensures
        r == AclAction::Allow,
{
    AclAction::Allow
}

/// A site and its gateway.
#[derive(Debug, Clone, PartialEq, Eq)]
pub struct SiteResponse {
    pub id: Uuid,
    pub name: String,
    pub routes: Vec<Ipv4Net>,
    pub acl_default: AclAction,
    pub gateway_id: Uuid,
    pub gateway_kind: String,
    pub gateway_status: String,
    pub interface_name: String,
    pub endpoint_host: String,
    pub public_port: Option<u16>,
    pub listen_port: Option<u16>,
    pub endpoint: Option<String>,
    pub public_key: Option<String>,
    pub compatibility_address: bool,
    pub granted_group_ids: Vec<Uuid>,
    pub desired_revision: u64,
    pub applied_revision: u64,
    pub last_seen_at: Option<String>,
    pub last_error: Option<String>,
}

/// What a site is to become.
#[derive(Debug, Clone, PartialEq, Eq)]
pub struct UpdateSiteRequest {
    pub name: String,
    pub routes: Vec<Ipv4Net>,
    pub endpoint_host: String,
    pub public_port: Option<u16>,
    pub granted_group_ids: Vec<Uuid>,
    pub acl_default: AclAction,
    pub compatibility_address: bool,
}

/// How a router is to be reached.
#[derive(Debug, Clone, PartialEq, Eq)]
pub struct UpdateRouterTargetRequest {
    pub base_url: String,
    pub username: String,
    /// Omit to retain the current password. Required for initial setup.
    pub password: Option<String>,
    /// Omit to retain the current PEM CA bundle. Required for initial setup.
    pub ca_certificate_pem: Option<String>,
}

/// How a router is reached, without the secrets.
#[derive(Debug, Clone, PartialEq, Eq)]
pub struct RouterTargetResponse {
    pub configured: bool,
    pub base_url: String,
    pub username: String,
    pub has_password: bool,
    pub has_ca_certificate: bool,
}

/// An access rule as it is written and read.
#[derive(Debug, Clone, PartialEq, Eq)]
pub struct AclRuleModel {
    pub id: Option<Uuid>,
    pub position: u32,
    pub action: AclAction,
    pub destination: Ipv4Net,
    pub protocol: IpProtocol,
    pub destination_ports: Option<PortRange>,
    pub user_ids: Vec<Uuid>,
    pub group_ids: Vec<Uuid>,
    pub enabled: bool,
}

/// Whether a rule is enabled or a person active, where nothing was said.
pub fn default_true() -> (r: bool)
    ensures
        r,
{
    true
}

/// The access rules that a site is to have.
#[derive(Debug, Clone, PartialEq, Eq)]
pub struct ReplaceAclRequest {
    pub default_action: AclAction,
    pub rules: Vec<AclRuleModel>,
}

/// The access rules of a site.
#[derive(Debug, Clone, PartialEq, Eq)]
pub struct AclResponse {
    pub default_action: AclAction,
    pub rules: Vec<AclRuleModel>,
}

/// What the settings of the installation are to become.
#[derive(Debug, Clone, PartialEq, Eq)]
pub struct UpdateSystemSettingsRequest {
    pub client_pool: Ipv4Net,
    pub default_device_limit: u32,
    pub client_options: ClientOptions,
}

/// How many devices a user may have.
#[derive(Debug, Clone, PartialEq, Eq)]
pub struct SetDeviceLimitRequest {
    pub limit: Option<u32>,
}

/// Something that happened. Its details are a JSON text.
#[derive(Debug, Clone, PartialEq, Eq)]
pub struct AuditEventResponse {
    pub id: Uuid,
    pub occurred_at: String,
    pub actor_user_id: Option<Uuid>,
    pub actor_kind: String,
    pub action: String,
    pub object_kind: String,
    /// Object identifiers are opaque because some audited resources are
    /// singletons rather than UUID-backed domain entities.
    pub object_id: Option<String>,
    pub outcome: String,
    pub details: String,
}

/// What sort of identity provider it is.
#[derive(Debug, Clone, Copy, PartialEq, Eq, Structural)]
pub enum ProviderKind {
    Oidc,
    Ldap,
}

impl ProviderKind {
    /// The name of the sort.
    pub open spec fn name(self) -> Seq<char> {
        match self {
            ProviderKind::Oidc => "oidc"@,
            ProviderKind::Ldap => "ldap"@,
        }
    }

    /// The name of the sort.
    pub fn as_str(self) -> (r: &'static str)
        ensures
            r@ == self.name(),
    {
        match self {
            ProviderKind::Oidc => "oidc",
            ProviderKind::Ldap => "ldap",
        }
    }
}

/// An identity provider to create. Its configuration is a JSON text.
#[derive(Debug, Clone, PartialEq, Eq)]
pub struct CreateProviderRequest {
    pub kind: ProviderKind,
    pub name: String,
    pub trusted_create: bool,
    pub sync_interval_seconds: Option<u32>,
    pub config: String,
}

/// An identity provider.
#[derive(Debug, Clone, PartialEq, Eq)]
pub struct ProviderResponse {
    pub id: Uuid,
    pub kind: ProviderKind,
    pub name: String,
    pub enabled: bool,
    pub trusted_create: bool,
    pub sync_interval_seconds: Option<u32>,
    pub last_successful_sync_at: Option<String>,
}

/// An identity provider that one can log in with.
#[derive(Debug, Clone, PartialEq, Eq)]
pub struct LoginProviderResponse {
    pub id: Uuid,
    pub kind: ProviderKind,
    pub name: String,
}

/// A login with a directory.
#[derive(Debug, Clone, PartialEq, Eq)]
pub struct LdapLoginRequest {
    pub provider_id: Uuid,
    pub email: String,
    pub password: String,
}

/// Whether an identity provider is to be used.
#[derive(Debug, Clone, PartialEq, Eq)]
pub struct SetProviderEnabledRequest {
    pub enabled: bool,
}

/// One person in a directory.
#[derive(Debug, Clone, PartialEq, Eq)]
pub struct LdapSnapshotEntry {
    pub external_id: String,
    pub email: String,
    pub name: String,
    pub title: String,
    pub groups: Vec<String>,
    pub active: bool,
}

/// The people in a directory.
#[derive(Debug, Clone, PartialEq, Eq)]
pub struct LdapSyncSnapshot {
    pub complete: bool,
    pub entries: Vec<LdapSnapshotEntry>,
}

/// What an identity provider says of a person.
#[derive(Debug, Clone, PartialEq, Eq)]
pub struct OidcClaims {
    pub subject: String,
    pub email: String,
    pub email_verified: bool,
    pub name: String,
    pub title: String,
    pub groups: Vec<String>,
}

/// A move of all clients to another pool.
#[derive(Debug, Clone, PartialEq, Eq)]
pub struct CreateSubnetMigrationRequest {
    pub new_pool: Ipv4Net,
    pub effective_at: String,
}

/// A move of all clients to another pool, and how far it is.
#[derive(Debug, Clone, PartialEq, Eq)]
pub struct SubnetMigrationResponse {
    pub id: Uuid,
    pub old_pool: Ipv4Net,
    pub new_pool: Ipv4Net,
    pub effective_at: String,
    pub status: String,
    pub prepared_gateways: i64,
    pub total_gateways: i64,
    pub affected_devices: usize,
}

/// How a mail server is spoken to.
#[derive(Debug, Clone, Copy, PartialEq, Eq, Structural)]
pub enum SmtpSecurity {
    StartTls,
    Tls,
}

/// How mail is to be sent.
#[derive(Debug, Clone, PartialEq, Eq)]
pub struct UpdateSmtpSettingsRequest {
    pub enabled: bool,
    pub host: String,
    pub port: u16,
    pub security: SmtpSecurity,
    pub username: Option<String>,
    /// Omit to retain the existing credential. An empty value clears it.
    pub password: Option<String>,
    pub from_address: String,
    pub public_base_url: String,
}

/// How mail is sent, without the password.
#[derive(Debug, Clone, PartialEq, Eq)]
pub struct SmtpSettingsResponse {
    pub configured: bool,
    pub enabled: bool,
    pub host: String,
    pub port: u16,
    pub security: SmtpSecurity,
    pub username: Option<String>,
    pub has_password: bool,
    pub from_address: String,
    pub public_base_url: String,
}

/// A device to create.
#[derive(Debug, Clone, PartialEq, Eq)]
pub struct CreateDeviceRequest {
    pub user_id: Uuid,
    pub name: String,
    pub public_key: String,
}

/// A device.
#[derive(Debug, Clone, PartialEq, Eq)]
pub struct DeviceResponse {
    pub id: Uuid,
    pub user_id: Uuid,
    pub name: String,
    pub public_key: String,
    pub vpn_address: Ipv4Addr,
    pub status: String,
    pub config_revision: u64,
    pub acknowledged_revision: u64,
    pub outdated: bool,
    pub created_at: String,
}

/// The new key of a device.
#[derive(Debug, Clone, PartialEq, Eq)]
pub struct RotateDeviceKeyRequest {
    pub public_key: String,
}

/// How a user took note of a profile.
#[derive(Debug, Clone, Copy, PartialEq, Eq, Structural)]
pub enum AcknowledgementMethod {
    CompleteDownload,
    PlaceholderDownload,
    ManualDismiss,
}

impl AcknowledgementMethod {
    /// The name of the method.
    pub open spec fn name(self) -> Seq<char> {
        match self {
            AcknowledgementMethod::CompleteDownload => "complete_download"@,
            AcknowledgementMethod::PlaceholderDownload => "placeholder_download"@,
            AcknowledgementMethod::ManualDismiss => "manual_dismiss"@,
        }
    }

    /// The name of the method.
    pub fn as_str(&self) -> (r: &'static str)
        ensures
            r@ == self.name(),
    {
        match self {
            AcknowledgementMethod::CompleteDownload => "complete_download",
            AcknowledgementMethod::PlaceholderDownload => "placeholder_download",
            AcknowledgementMethod::ManualDismiss => "manual_dismiss",
        }
    }
}

/// That a user took note of a profile.
#[derive(Debug, Clone, PartialEq, Eq)]
pub struct AcknowledgeConfigRequest {
    pub revision: u64,
    pub method: AcknowledgementMethod,
}

/// The profile of a device, and what changed since it was taken note of.
#[derive(Debug, Clone, PartialEq, Eq)]
pub struct DeviceConfigResponse {
    pub model: ClientConfigModel,
    pub placeholder_config: String,
    pub acknowledged_revision: u64,
    pub outdated: bool,
    pub changes: Vec<ConfigChange>,
    pub peer_statuses: Vec<PeerProvisioningResponse>,
}

/// Whether a site is ready for a device.
#[derive(Debug, Clone, PartialEq, Eq)]
pub struct PeerProvisioningResponse {
    pub site_id: Uuid,
    pub site_name: String,
    pub state: String,
    pub error: Option<String>,
}

} // verus!
