//! The configuration of the monitor.
use crate::text::{self, text_equal};
use std::path::PathBuf;
use vstd::prelude::*;

verus! {

/// The whole configuration.
#[derive(Debug, Clone)]
pub struct Config {
    pub global: GlobalConfig,
    pub domains: Vec<DomainConfig>,
    pub sources: Option<SourceConfig>,
}

/// What holds for all domains.
#[derive(Debug, Clone)]
pub struct GlobalConfig {
    pub state_file: Option<String>,
    pub concurrency: Option<u32>,
    pub connect_timeout: Option<u64>,
    pub acme_account_email: String,
    pub acme_directory: Option<String>,
    pub default_dns_provider: Option<String>,
    pub renew_threshold_days: Option<i64>,
    pub hook_timeout: Option<u64>,
    pub notification_debounce_hours: Option<i64>,
    pub smtp: Option<SmtpConfig>,
    pub slack: Option<SlackConfig>,
    pub dingtalk: Option<DingTalkConfig>,
}

/// Where further domains come from.
#[derive(Debug, Clone)]
pub struct SourceConfig {
    pub domain_list: Option<Vec<String>>,
    pub ip_ranges: Option<Vec<IpRangeConfig>>,
    pub pem_directories: Option<Vec<String>>,
}

/// A range of addresses, and the port to scan on them.
#[derive(Debug, Clone)]
pub struct IpRangeConfig {
    pub cidr: String,
    pub port: Option<u16>,
}

/// How to send alerts by mail.
#[derive(Debug, Clone)]
pub struct SmtpConfig {
    pub host: String,
    pub port: u16,
    pub username: String,
    pub password: String,
    pub from: String,
    pub to: Vec<String>,
    pub use_tls: Option<bool>,
}

/// How to send alerts to Slack.
#[derive(Debug, Clone)]
pub struct SlackConfig {
    pub webhook_url: String,
    pub channel: Option<String>,
}

/// How to send alerts to DingTalk.
#[derive(Debug, Clone)]
pub struct DingTalkConfig {
    pub webhook_url: String,
    pub secret: Option<String>,
}

/// A domain, and how its certificate is renewed and deployed.
#[derive(Debug, Clone)]
pub struct DomainConfig {
    pub name: String,
    pub validation_method: Option<ValidationMethod>,
    pub dns_provider: Option<DnsProviderConfig>,
    pub cert_storage_path: Option<String>,
    pub fullchain_path: Option<String>,
    pub privkey_path: Option<String>,
    pub http_challenge_dir: Option<String>,
    pub deployment_hooks: Option<Vec<String>>,
    pub verification_hook: Option<bool>,
    pub auto_renew: bool,
    pub ports: Option<Vec<u16>>,
}

/// How control over a domain is shown.
#[derive(Debug, Clone, Copy, PartialEq, Eq, Structural)]
pub enum ValidationMethod {
    Http01,
    Dns01,
}

/// The service that holds the DNS records of a domain.
#[derive(Debug, Clone)]
pub enum DnsProviderConfig {
    Cloudflare { api_token: String, zone_id: Option<String> },
    Aliyun { access_key_id: String, access_key_secret: String, region: Option<String> },
}

/// A path of the file system.
#[verifier::external_type_specification]
#[verifier::external_body]
pub struct ExPathBuf(PathBuf);

/// The path of a file or directory.
#[derive(Debug)]
pub enum FilePath {
    /// A path as it is written.
    Written(String),
    /// A path below a directory, one part after the other.
    Below { directory: PathBuf, parts: Vec<String> },
}

/// The user's home directory, if one is known: `dirs::home_dir`. It depends on the
/// environment, so nothing is claimed of it.
#[verifier::external_body]
pub(crate) fn home_directory() -> (home: Option<PathBuf>) {
    dirs::home_dir()
}

impl Config {
    /// Whether a path is that of the state file, with `home` as the home directory:
    /// the configured file, else one in a directory of the monitor below the home
    /// directory, else one in the working directory.
    pub open spec fn is_state_file_path(self, home: Option<PathBuf>, path: FilePath) -> bool {
        match self.global.state_file {
            Some(file) => path matches FilePath::Written(p) && p@ == file@,
            None => match home {
                Some(home) => {
                    &&& path matches FilePath::Below { directory, parts }
                    &&& directory == home
                    &&& text::texts(parts@) == seq![".cert-monitor"@, "state.json"@]
                },
                None => path matches FilePath::Written(p) && p@ == "cert-monitor-state.json"@,
            },
        }
    }

    /// The path of the state file, with `home` as the home directory.
    pub fn state_file_path_in(&self, home: Option<PathBuf>) -> (path: FilePath)
        ensures
            self.is_state_file_path(home, path),
    {
        match &self.global.state_file {
            Some(file) => FilePath::Written(file.clone()),
            None => match home {
                Some(home) => {
                    let parts: Vec<String> = vec!
                        [".cert-monitor".to_owned(), "state.json".to_owned()];
                    assert(text::texts(parts@) =~= seq![".cert-monitor"@, "state.json"@]);
                    FilePath::Below { directory: home, parts }
                },
                None => FilePath::Written("cert-monitor-state.json".to_owned()),
            },
        }
    }

    /// The path of the state file.
    pub fn get_state_file_path(&self) -> (path: FilePath)
        ensures
            exists|home: Option<PathBuf>| self.is_state_file_path(home, path),
    {
        let home = home_directory();
        self.state_file_path_in(home)
    }

    /// The first of the configured domains, from number `from` on, with a given name.
    pub open spec fn first_named(
        domains: Seq<DomainConfig>,
        name: Seq<char>,
        from: int,
    ) -> Option<DomainConfig>
        decreases domains.len() - from,
    {
        if from < 0 || from >= domains.len() {
            None
        } else if domains[from].name@ == name {
            Some(domains[from])
        } else {
            Config::first_named(domains, name, from + 1)
        }
    }

    /// The first configured domain with a given name.
    pub fn find_domain(&self, name: &str) -> (domain: Option<&DomainConfig>)
        ensures
            match domain {
                Some(domain) => Config::first_named(self.domains@, name@, 0) == Some(*domain),
                None => Config::first_named(self.domains@, name@, 0) is None,
            },
    {
        let mut i: usize = 0;
        while i < self.domains.len()
            invariant
                i <= self.domains.len(),
                Config::first_named(self.domains@, name@, 0) == Config::first_named(
                    self.domains@,
                    name@,
                    i as int,
                ),
            decreases self.domains.len() - i,
        {
            if text_equal(self.domains[i].name.as_str(), name) {
                return Some(&self.domains[i]);
            }
            i += 1;
        }
        None
    }

    /// The first entry with a name is the one that is found under it.
    pub proof fn first_domains_are_found(
        domains: Seq<DomainConfig>,
        name: Seq<char>,
        k: int,
        from: int,
    )
        requires
            0 <= from <= k < domains.len(),
            domains[k].name@ == name,
            forall|j: int| from <= j < k ==> (#[trigger] domains[j]).name@ != name,
        ensures
            Config::first_named(domains, name, from) == Some(domains[k]),
        decreases k - from,
    {
        if from < k {
            assert(domains[from].name@ != name);
            Config::first_domains_are_found(domains, name, k, from + 1);
        }
    }

    /// What is found under a name is an entry with that name; where nothing is found,
    /// there is none.
    pub proof fn found_domains_have_the_name(
        domains: Seq<DomainConfig>,
        name: Seq<char>,
        from: int,
    )
        requires
            0 <= from <= domains.len(),
        ensures
            match Config::first_named(domains, name, from) {
                Some(domain) => exists|k: int|
                    from <= k < domains.len() && #[trigger] domains[k] == domain
                        && domain.name@ == name,
                None => forall|k: int|
                    from <= k < domains.len() ==> (#[trigger] domains[k]).name@ != name,
            },
        decreases domains.len() - from,
    {
        if from < domains.len() && domains[from].name@ != name {
            Config::found_domains_have_the_name(domains, name, from + 1);
        }
    }

    /// How many domains are scanned at a time.
    pub fn concurrency(&self) -> (n: u32)
        ensures
            n == match self.global.concurrency {
                Some(n) => n,
                None => 20,
            },
    {
        match self.global.concurrency {
            Some(n) => n,
            None => 20,
        }
    }

    /// How many seconds a connection may take.
    pub fn connect_timeout_secs(&self) -> (secs: u64)
        ensures
            secs == match self.global.connect_timeout {
                Some(secs) => secs,
                None => 10,
            },
    {
        match self.global.connect_timeout {
            Some(secs) => secs,
            None => 10,
        }
    }

    /// With how many days left, or fewer, a certificate is renewed.
    pub open spec fn renewal_threshold(self) -> i64 {
        match self.global.renew_threshold_days {
            Some(days) => days,
            None => 30,
        }
    }

    /// With how many days left, or fewer, a certificate is renewed.
    pub fn renew_threshold_days(&self) -> (days: i64)
        ensures
            days == self.renewal_threshold(),
    {
        match self.global.renew_threshold_days {
            Some(days) => days,
            None => 30,
        }
    }

    /// How many seconds a deployment hook may take.
    pub open spec fn hook_timeout(self) -> u64 {
        match self.global.hook_timeout {
            Some(secs) => secs,
            None => 60,
        }
    }

    /// How many seconds a deployment hook may take.
    pub fn hook_timeout_secs(&self) -> (secs: u64)
        ensures
            secs == self.hook_timeout(),
    {
        match self.global.hook_timeout {
            Some(secs) => secs,
            None => 60,
        }
    }

    /// For how many hours an alert is not repeated.
    pub open spec fn debounce_hours(self) -> i64 {
        match self.global.notification_debounce_hours {
            Some(hours) => hours,
            None => 24,
        }
    }

    /// For how many hours an alert is not repeated.
    pub fn notification_debounce_hours(&self) -> (hours: i64)
        ensures
            hours == self.debounce_hours(),
    {
        match self.global.notification_debounce_hours {
            Some(hours) => hours,
            None => 24,
        }
    }

    /// The address of the directory of the certificate authority.
    pub fn acme_directory_url(&self) -> (url: String)
        ensures
            url@ == match self.global.acme_directory {
                Some(url) => url@,
                None => "https://acme-v02.api.letsencrypt.org/directory"@,
            },
    {
        match &self.global.acme_directory {
            Some(url) => url.clone(),
            None => "https://acme-v02.api.letsencrypt.org/directory".to_owned(),
        }
    }
}

/// A configuration to start from.
pub const CONFIG_TEMPLATE: &'static str = "# cert-monitor 配置文件模板
global:
  # 状态文件路径
  state_file: \"~/.cert-monitor/state.json\"
  # 并发连接数
  concurrency: 20
  # 连接超时时间(秒)
  connect_timeout: 10
  # ACME 账户邮箱
  acme_account_email: \"admin@example.com\"
  # ACME 目录URL (默认使用Let's Encrypt生产环境)
  acme_directory: \"https://acme-v02.api.letsencrypt.org/directory\"
  # 续签阈值(天),小于此值才触发续签
  renew_threshold_days: 30
  # 部署钩子超时时间(秒)
  hook_timeout: 60
  # 通知防抖时间(小时)
  notification_debounce_hours: 24

  # 邮件通知配置
  smtp:
    host: \"smtp.example.com\"
    port: 465
    username: \"alert@example.com\"
    password: \"your-smtp-password\"
    from: \"alert@example.com\"
    to:
      - \"admin@example.com\"
    use_tls: true

  # Slack 通知配置
  slack:
    webhook_url: \"https://hooks.slack.com/services/xxx/yyy/zzz\"
    channel: \"#alerts\"

  # 钉钉通知配置
  dingtalk:
    webhook_url: \"https://oapi.dingtalk.com/robot/send?access_token=xxx\"
    secret: \"your-sign-secret\"

# 扫描数据源配置(可选)
sources:
  # 直接指定域名列表
  domain_list:
    - \"example.com\"
    - \"api.example.com\"
  # IP段扫描
  ip_ranges:
    - cidr: \"192.168.1.0/24\"
      port: 443
  # 从本地目录读取PEM文件
  pem_directories:
    - \"/etc/nginx/ssl\"
    - \"/etc/traefik/certs\"

# 域名列表配置
domains:
  - name: \"example.com\"
    # 验证方式: http01 或 dns01
    validation_method: \"dns01\"
    # DNS 提供商配置
    dns_provider:
      type: \"cloudflare\"
      api_token: \"your-cloudflare-api-token\"
    # 证书存储路径
    cert_storage_path: \"/etc/nginx/ssl/example.com\"
    fullchain_path: \"/etc/nginx/ssl/example.com/fullchain.pem\"
    privkey_path: \"/etc/nginx/ssl/example.com/privkey.pem\"
    # HTTP-01 挑战文件目录
    http_challenge_dir: \"/var/www/html/.well-known/acme-challenge\"
    # 部署钩子命令
    deployment_hooks:
      - \"nginx -s reload\"
    # 部署完成后验证证书
    verification_hook: true
    # 是否启用自动续签
    auto_renew: true

  - name: \"api.example.com\"
    validation_method: \"dns01\"
    dns_provider:
      type: \"aliyun\"
      access_key_id: \"your-aliyun-access-key\"
      access_key_secret: \"your-aliyun-secret\"
      region: \"cn-hangzhou\"
    fullchain_path: \"/etc/nginx/ssl/api.example.com/fullchain.pem\"
    privkey_path: \"/etc/nginx/ssl/api.example.com/privkey.pem\"
    deployment_hooks:
      - \"systemctl reload nginx\"
    verification_hook: true
    auto_renew: true
";

/// A configuration to start from.
pub fn generate_default_config_template() -> (template: String)
    ensures
        template@ == CONFIG_TEMPLATE@,
{
    CONFIG_TEMPLATE.to_owned()
}

/// A setting that is given is the one that holds; each of the others has its own default.
pub proof fn settings_that_are_given_hold(config: Config)
    ensures
        config.global.renew_threshold_days matches Some(days) ==> config.renewal_threshold() == days,
        config.global.renew_threshold_days is None ==> config.renewal_threshold() == 30,
        config.global.hook_timeout matches Some(secs) ==> config.hook_timeout() == secs,
        config.global.hook_timeout is None ==> config.hook_timeout() == 60,
        config.global.notification_debounce_hours matches Some(hours) ==> config.debounce_hours()
            == hours,
        config.global.notification_debounce_hours is None ==> config.debounce_hours() == 24,
{
}

/// The state file that is configured is used wherever the home directory is; without one, it
/// is below the home directory, or in the working directory where there is no home.
pub proof fn the_configured_state_file_is_used(
    config: Config,
    home: Option<PathBuf>,
    other: Option<PathBuf>,
    path: FilePath,
)
    requires
        config.is_state_file_path(home, path),
    ensures
        config.global.state_file matches Some(file) ==> {
            &&& path matches FilePath::Written(p) && p@ == file@
            &&& config.is_state_file_path(other, path)
        },
        config.global.state_file is None ==> {
            &&& path is Below <==> home is Some
            &&& path matches FilePath::Below { directory, parts } ==> Some(directory) == home
                && parts@.len() == 2 && parts@[0]@ == ".cert-monitor"@ && parts@[1]@
                == "state.json"@
        },
{
    if let FilePath::Below { parts, .. } = path {
        let texts = text::texts(parts@);
        assert(texts == seq![".cert-monitor"@, "state.json"@]);
        assert(texts[0] == parts@[0]@ && texts[1] == parts@[1]@);
    }
}

} // verus!
