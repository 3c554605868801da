//! Active Directory: directory entries, principals and memberships.

pub mod config;
pub mod enumerate;
pub mod ldap_client;
pub mod local_groups;
pub mod lookups;
pub mod memberships;
pub mod principal;
pub mod resolver;
pub mod sam;
pub mod sid_util;
pub mod trusts;
