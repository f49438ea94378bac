//! The configuration of the monitor.

use crate::models::ServiceConfig;
use vstd::prelude::*;

verus! {

/// Where alerts go.
#[derive(Debug)]
pub struct AlertConfig {
    pub webhooks: Vec<WebhookConfig>,
}

impl AlertConfig {
    /// The webhooks that are configured, in their order.
    pub open spec fn view(&self) -> Seq<WebhookConfigView> {
        self.webhooks@.map_values(|webhook: WebhookConfig| webhook@)
    }
}

impl Default for AlertConfig {
    fn default() -> (config: Self)
        ensures
            config@ == Seq::<WebhookConfigView>::empty(),
    {
        let config = AlertConfig { webhooks: Vec::new() };
        assert(config@ =~= Seq::<WebhookConfigView>::empty());
        config
    }
}

impl Clone for AlertConfig {
    fn clone(&self) -> (copy: Self)
        ensures
            copy@ == self@,
    {
        let mut webhooks: Vec<WebhookConfig> = Vec::new();
        for i in 0..self.webhooks.len()
            invariant
                webhooks@ == self.webhooks@.take(i as int),
        {
            webhooks.push(self.webhooks[i].clone());
            assert(self.webhooks@.take(i + 1) =~= self.webhooks@.take(i as int).push(
                self.webhooks@[i as int],
            ));
        }
        assert(self.webhooks@.take(self.webhooks@.len() as int) =~= self.webhooks@);
        AlertConfig { webhooks }
    }
}

/// A place that alerts go to, and the level that it is meant for.
#[derive(Debug)]
pub struct WebhookConfig {
    pub url: String,
    pub level: String,
}

/// A place that alerts go to, in mathematical terms.
pub struct WebhookConfigView {
    pub url: Seq<char>,
    pub level: Seq<char>,
}

impl View for WebhookConfig {
    type V = WebhookConfigView;

    open spec fn view(&self) -> WebhookConfigView {
        WebhookConfigView { url: self.url@, level: self.level@ }
    }
}

impl Clone for WebhookConfig {
    fn clone(&self) -> (copy: Self)
        ensures
            copy == *self,
    {
        WebhookConfig { url: self.url.clone(), level: self.level.clone() }
    }
}

/// The level of a webhook where none is configured.
pub fn default_level() -> (level: String)
    ensures
        level@ == "critical"@,
{
    "critical".to_owned()
}

/// Where the monitor answers requests.
#[derive(Debug)]
pub struct ServerConfig {
    pub host: String,
    pub port: u16,
}

impl Default for ServerConfig {
    fn default() -> (config: Self)
        ensures
            config.host@ == "0.0.0.0"@,
            config.port == 8080,
    {
        ServerConfig { host: default_host(), port: default_port() }
    }
}

impl Clone for ServerConfig {
    fn clone(&self) -> (copy: Self)
        ensures
            copy == *self,
    {
        ServerConfig { host: self.host.clone(), port: self.port }
    }
}

/// The host where none is configured.
pub fn default_host() -> (host: String)
    ensures
        host@ == "0.0.0.0"@,
{
    "0.0.0.0".to_owned()
}

/// The port where none is configured.
pub fn default_port() -> (port: u16)
    ensures
        port == 8080,
{
    8080
}

/// The whole configuration.
#[derive(Debug)]
pub struct AppConfig {
    pub services: Vec<ServiceConfig>,
    pub alert: AlertConfig,
    pub server: ServerConfig,
}

impl Clone for AppConfig {
    fn clone(&self) -> (copy: Self)
        ensures
            copy.services@.map_values(|config: ServiceConfig| config@)
                == self.services@.map_values(|config: ServiceConfig| config@),
            copy.alert@ == self.alert@,
            copy.server == self.server,
    {
        let mut services: Vec<ServiceConfig> = Vec::new();
        for i in 0..self.services.len()
            invariant
                services@.len() == i,
                forall|j: int| 0 <= j < i ==> (#[trigger] services@[j])@ == self.services@[j]@,
        {
            services.push(self.services[i].clone());
        }
        assert(services@.map_values(|config: ServiceConfig| config@)
            =~= self.services@.map_values(|config: ServiceConfig| config@));
        AppConfig { services, alert: self.alert.clone(), server: self.server.clone() }
    }
}

/// Whether an event on the configuration file asks for it to be read again: that the file was
/// modified, or created anew.
pub fn reload_wanted(modified: bool, created: bool) -> (wanted: bool)
    ensures
        wanted == (modified || created),
{
    modified || created
}

} // verus!
