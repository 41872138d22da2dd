//! The display configuration: which facts the report shows. Loading the
//! configuration file is the caller's business; this module owns the
//! configuration values, their defaults and the default file location.

use vstd::prelude::*;

verus! {

/// The whole configuration.
#[derive(Debug)]
pub struct Config {
    pub display: DisplayConfig,
}

/// One switch per displayable fact.
#[derive(Debug)]
pub struct DisplayConfig {
    pub os: bool,
    pub kernel: bool,
    pub uptime: bool,
    pub cpu: bool,
    pub cpu_frequency: bool,
    pub gpu: bool,
    pub ram: bool,
    pub swap: bool,
    pub disk: bool,
    pub battery: bool,
    pub power_draw: bool,
}

impl Default for DisplayConfig {
    /// What a missing or corrupted configuration file falls back to: all
    /// facts shown except the CPU frequency and the power draw.
    fn default() -> (r: Self)
        ensures
            r.os && r.kernel && r.uptime && r.cpu && !r.cpu_frequency && r.gpu && r.ram && r.swap
                && r.disk && r.battery && !r.power_draw,
    {
        Self {
            os: true,
            kernel: true,
            uptime: true,
            cpu: true,
            cpu_frequency: false,
            gpu: true,
            ram: true,
            swap: true,
            disk: true,
            battery: true,
            power_draw: false,
        }
    }
}

impl DisplayConfig {
    /// Every switch on.
    pub fn set_all() -> (r: Self)
        ensures
            r.os && r.kernel && r.uptime && r.cpu && r.cpu_frequency && r.gpu && r.ram && r.swap
                && r.disk && r.battery && r.power_draw,
    {
        Self {
            os: true,
            kernel: true,
            uptime: true,
            cpu: true,
            cpu_frequency: true,
            gpu: true,
            ram: true,
            swap: true,
            disk: true,
            battery: true,
            power_draw: true,
        }
    }
}

impl Default for Config {
    fn default() -> (r: Self)
        ensures
            r.display.os && r.display.kernel && r.display.uptime && r.display.cpu
                && !r.display.cpu_frequency && r.display.gpu && r.display.ram && r.display.swap
                && r.display.disk && r.display.battery && !r.display.power_draw,
    {
        Self { display: DisplayConfig::default() }
    }
}

/// The configuration that the all-facts flag selects: every switch on.
pub fn load_all_config() -> (r: Config)
    ensures
        r.display.os && r.display.kernel && r.display.uptime && r.display.cpu
            && r.display.cpu_frequency && r.display.gpu && r.display.ram && r.display.swap
            && r.display.disk && r.display.battery && r.display.power_draw,
{
    Config { display: DisplayConfig::set_all() }
}

/// The default configuration file text, commented for hand editing.
pub fn get_config_template() -> (r: String)
    ensures
        r@ == (
        "# Rustfetch config file\n\n[display]\n# Display the OS name\nos = true\n# Display the kernel version\nkernel = true\n# Display system uptime\nuptime = true\n\n# CPU INFO\n# --------\n# Display CPU info\ncpu = true\n    cpu_frequency = false\n\n# GPU INFO\n# --------\ngpu = true\n\n# MEMORY INFO\n# -----------\n# Display RAM usage\nram = true\n# Display swap usage\nswap = true\n\n# DISK INFO\n# ---------\n# Display disk usage\ndisk = true\n\n# LAPTOP-RELATED INFO (Linux only)\n# If the device is not a laptop, turning\n# these on just wont display anything\n# --------------------------------------\n# Display battery information\nbattery = true\n# Display power draw\npower_draw = false\n")@,
{
    String::from_str(
        "# Rustfetch config file\n\n[display]\n# Display the OS name\nos = true\n# Display the kernel version\nkernel = true\n# Display system uptime\nuptime = true\n\n# CPU INFO\n# --------\n# Display CPU info\ncpu = true\n    cpu_frequency = false\n\n# GPU INFO\n# --------\ngpu = true\n\n# MEMORY INFO\n# -----------\n# Display RAM usage\nram = true\n# Display swap usage\nswap = true\n\n# DISK INFO\n# ---------\n# Display disk usage\ndisk = true\n\n# LAPTOP-RELATED INFO (Linux only)\n# If the device is not a laptop, turning\n# these on just wont display anything\n# --------------------------------------\n# Display battery information\nbattery = true\n# Display power draw\npower_draw = false\n",
    )
}

/// Relies on `dirs::config_dir`: the platform's per-user configuration
/// directory, which depends on the environment; `None` when it cannot be
/// determined. The path is handed on as a string, `None` also when it is
/// not valid UTF-8.
#[verifier::external_body]
fn platform_config_dir() -> (r: Option<String>) {
    dirs::config_dir().and_then(|p| p.into_os_string().into_string().ok())
}

/// The configuration file path under `base`: `rustfetch/config.toml`
/// inside it, or plain `rustfetch.toml` in the working directory when no
/// base is known.
pub fn config_path_for(base: Option<String>) -> (r: String)
    ensures
        r@ == (match base {
            Some(b) => b@ + "/rustfetch/config.toml"@,
            None => "rustfetch.toml"@,
        }),
{
    match base {
        None => String::from_str("rustfetch.toml"),
        Some(b) => {
            let mut p = b;
            p.append("/rustfetch/config.toml");
            p
        },
    }
}

/// The configuration file location: `rustfetch/config.toml` under the
/// platform's configuration directory, with the working directory as
/// fallback.
pub fn get_default_path() -> (r: String)
    ensures
        r@ == "rustfetch.toml"@ || (exists|b: Seq<char>| r@ == b + "/rustfetch/config.toml"@),
{
    let base = platform_config_dir();
    let ghost base_view = base;
    let r = config_path_for(base);
    proof {
        if base_view is Some {
            let b = base_view->0@;
            assert(r@ == b + "/rustfetch/config.toml"@);
        }
    }
    r
}

} // verus!
