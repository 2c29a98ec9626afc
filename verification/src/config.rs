//! Access to the application configuration once it has been loaded.
use vstd::prelude::*;
use crate::domain::{AppConfig, JwtConfig, MongoConfig, SessionConfig};

verus! {

/// Hands out the loaded configuration.
pub trait ConfigService {
    spec fn spec_config(&self) -> Option<AppConfig>;

    fn get_config(&self) -> (r: AppConfig)
        requires
            self.spec_config() is Some,
        ensures
            r == self.spec_config().unwrap(),
    ;
}

/// Holds the configuration read from a named file; reading the file itself
/// is the caller's concern, which hands the parsed values to `set_config`.
pub struct FileConfigService {
    fname: &'static str,
    config: Option<AppConfig>,
}

impl FileConfigService {
    pub closed spec fn spec_fname(&self) -> Seq<char> {
        self.fname@
    }

    pub fn new(fname: &'static str) -> (r: FileConfigService)
        ensures
            r.spec_config() is None,
            r.spec_fname() == fname@,
    {
        FileConfigService { fname, config: None }
    }

    /// Stores the configuration values once they have been read and parsed.
    pub fn set_config(&mut self, config: AppConfig)
        ensures
            final(self).spec_config() == Some(config),
            final(self).spec_fname() == old(self).spec_fname(),
    {
        self.config = Some(config);
    }

    pub fn file_name(&self) -> (r: &str)
        ensures
            r@ == self.spec_fname(),
    {
        self.fname
    }
}

impl AppConfig {
    /// Copies the configuration, keeping every value.
    pub fn duplicate(&self) -> (r: AppConfig)
        ensures
            r == *self,
    {
        AppConfig {
            app_name: self.app_name.clone(),
            mongo: MongoConfig {
                uri: self.mongo.uri.clone(),
                database: self.mongo.database.clone(),
            },
            session: SessionConfig {
                secret_length: self.session.secret_length,
                lifetime_sec: self.session.lifetime_sec,
            },
            jwt: JwtConfig { secret: self.jwt.secret.clone(), exp_sec: self.jwt.exp_sec },
        }
    }
}

impl ConfigService for FileConfigService {
    closed spec fn spec_config(&self) -> Option<AppConfig> {
        self.config
    }

    fn get_config(&self) -> (r: AppConfig) {
        match &self.config {
            Some(c) => c.duplicate(),
            None => vstd::pervasive::unreached(),
        }
    }
}

} // verus!
