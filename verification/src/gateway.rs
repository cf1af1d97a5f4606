//! The home-automation gateway: login, and lighting decisions.
//!
//! The gateway maps known device names to device identifiers through a
//! static table and decides which on/off commands to send; an unknown
//! name is silently skipped, never an error.  The outbound calls to the
//! lighting API are the caller's concern: this module only plans them.
//! Login compares a password against a configured value and, on
//! success, grants the shared-secret cookie for about a year.

use crate::auth::{authorized, check_credential, cookie_view};
use crate::credential::CredentialStore;
use crate::error::{AppError, ErrorKind};
use crate::text::{str_eq, trim_of, trim_str};
use vstd::prelude::*;

verus! {

/// How long a granted credential cookie lasts, in seconds.
pub const ONE_YEAR_SECONDS: i64 = 31_556_952;

/// A lighting device the gateway knows: its identifier and model code.
#[derive(Debug, PartialEq, Eq)]
pub struct DeviceInfo {
    pub device: String,
    pub sku: String,
}

/// The static name-to-device table.
pub open spec fn device_table(name: Seq<char>) -> Option<(Seq<char>, Seq<char>)> {
    if name == "tall living room"@ {
        Some(("1A:A6:D4:AD:FC:EF:A6:1B"@, "H5080"@))
    } else if name == "small living room"@ {
        Some(("61:F6:D4:AD:FC:F3:6A:0F"@, "H5080"@))
    } else if name == "bubble lamp"@ {
        Some(("38:31:D4:AD:FC:A8:91:CB"@, "H5080"@))
    } else if name == "bedroom black"@ {
        Some(("44:CB:D4:AD:FC:EF:A5:E1"@, "H5080"@))
    } else if name == "studio lights"@ {
        Some(("67:5D:CD:2A:06:06:46:5F"@, "H612D"@))
    } else {
        None
    }
}

/// Looks a device up by name.
pub fn get_device(device_name: &str) -> (r: Option<DeviceInfo>)
    ensures
        match r {
            Some(d) => device_table(device_name@) == Some((d.device@, d.sku@)),
            None => device_table(device_name@) is None,
        },
{
    if str_eq(device_name, "tall living room") {
        Some(DeviceInfo { device: "1A:A6:D4:AD:FC:EF:A6:1B".to_owned(), sku: "H5080".to_owned() })
    } else if str_eq(device_name, "small living room") {
        Some(DeviceInfo { device: "61:F6:D4:AD:FC:F3:6A:0F".to_owned(), sku: "H5080".to_owned() })
    } else if str_eq(device_name, "bubble lamp") {
        Some(DeviceInfo { device: "38:31:D4:AD:FC:A8:91:CB".to_owned(), sku: "H5080".to_owned() })
    } else if str_eq(device_name, "bedroom black") {
        Some(DeviceInfo { device: "44:CB:D4:AD:FC:EF:A5:E1".to_owned(), sku: "H5080".to_owned() })
    } else if str_eq(device_name, "studio lights") {
        Some(DeviceInfo { device: "67:5D:CD:2A:06:06:46:5F".to_owned(), sku: "H612D".to_owned() })
    } else {
        None
    }
}

/// One toggle request: a device name and the state asked for.
pub struct LightItem {
    pub name: String,
    pub toggle: bool,
}

/// The mathematical model of a `LightItem`.
pub struct LightItemModel {
    pub name: Seq<char>,
    pub toggle: bool,
}

impl View for LightItem {
    type V = LightItemModel;

    open spec fn view(&self) -> LightItemModel {
        LightItemModel { name: self.name@, toggle: self.toggle }
    }
}

/// One on/off command to forward to the lighting API.
#[derive(Debug, PartialEq, Eq)]
pub struct LightCommand {
    pub device: String,
    pub sku: String,
    pub value: u32,
}

/// The mathematical model of a `LightCommand`.
pub struct LightCommandModel {
    pub device: Seq<char>,
    pub sku: Seq<char>,
    pub value: u32,
}

impl View for LightCommand {
    type V = LightCommandModel;

    open spec fn view(&self) -> LightCommandModel {
        LightCommandModel { device: self.device@, sku: self.sku@, value: self.value }
    }
}

/// The models of a sequence of requests.
pub open spec fn light_item_models(s: Seq<LightItem>) -> Seq<LightItemModel> {
    s.map_values(|it: LightItem| it@)
}

/// The models of a sequence of commands.
pub open spec fn light_command_models(s: Seq<LightCommand>) -> Seq<LightCommandModel> {
    s.map_values(|c: LightCommand| c@)
}

/// The plan: one command per known device name, in request order, on
/// as one and off as zero; unknown names are skipped without error.
pub open spec fn light_plan(reqs: Seq<LightItemModel>) -> Seq<LightCommandModel>
    decreases reqs.len(),
{
    if reqs.len() == 0 {
        Seq::empty()
    } else {
        match device_table(reqs[0].name) {
            Some(d) => seq![
                LightCommandModel {
                    device: d.0,
                    sku: d.1,
                    value: if reqs[0].toggle {
                        1u32
                    } else {
                        0u32
                    },
                },
            ] + light_plan(reqs.drop_first()),
            None => light_plan(reqs.drop_first()),
        }
    }
}

/// Plans the commands for a list of toggle requests.
pub fn plan_light_commands(reqs: &Vec<LightItem>) -> (cmds: Vec<LightCommand>)
    ensures
        light_command_models(cmds@) == light_plan(light_item_models(reqs@)),
{
    let ghost s = light_item_models(reqs@);
    let mut cmds: Vec<LightCommand> = Vec::new();
    let mut i: usize = 0;
    proof {
        assert(s.skip(0) =~= s);
        assert(light_command_models(cmds@) =~= Seq::<LightCommandModel>::empty());
    }
    while i < reqs.len()
        invariant
            i <= reqs.len(),
            s == light_item_models(reqs@),
            reqs@.len() == s.len(),
            light_command_models(cmds@) + light_plan(s.skip(i as int)) == light_plan(s),
        decreases reqs.len() - i,
    {
        proof {
            assert(s.skip(i as int)[0] == s[i as int]);
            assert(s[i as int] == reqs@[i as int]@);
            assert(s.skip(i as int).drop_first() =~= s.skip(i as int + 1));
        }
        let it = &reqs[i];
        if let Some(d) = get_device(it.name.as_str()) {
            let value: u32 = if it.toggle {
                1
            } else {
                0
            };
            let cmd = LightCommand { device: d.device, sku: d.sku, value };
            let ghost cm = cmd@;
            let ghost before = light_command_models(cmds@);
            cmds.push(cmd);
            proof {
                assert(light_command_models(cmds@) =~= before.push(cm));
            }
        }
        proof {
            assert(light_command_models(cmds@) + light_plan(s.skip(i as int + 1)) =~= light_plan(
                s,
            ));
        }
        i = i + 1;
    }
    proof {
        assert(s.skip(s.len() as int) =~= Seq::<LightItemModel>::empty());
        assert(light_command_models(cmds@) =~= light_plan(s));
    }
    cmds
}

/// The light-control pipeline: authorize, then plan; the caller
/// forwards the planned commands to the lighting API.
pub fn light_control(
    cred: &CredentialStore,
    cookie: Option<&String>,
    reqs: &Vec<LightItem>,
) -> (r: Result<Vec<LightCommand>, AppError>)
    ensures
        !authorized(cookie_view(cookie), cred.secret()) ==> r is Err && r->Err_0.kind
            == ErrorKind::Authorization,
        authorized(cookie_view(cookie), cred.secret()) ==> r is Ok && light_command_models(
            r->Ok_0@,
        ) == light_plan(light_item_models(reqs@)),
{
    if let Err(e) = check_credential(cookie, cred) {
        return Err(e);
    }
    Ok(plan_light_commands(reqs))
}

/// What login decides.
pub enum LoginDecision {
    /// The request already carried the credential cookie, verbatim.
    AlreadyAuthorized,
    /// Wrong cookie or none, right password: grant the cookie value
    /// and its expiry time.
    Grant(String, i64),
    /// Wrong password: the uniform denial.
    Denied,
}

/// Decides a login request against the configured password and key, as
/// loaded for this request; the cookie is compared verbatim, the
/// password and the configured values after trimming.
pub fn decide_login(
    cookie: Option<&String>,
    password: &str,
    stored_password: &str,
    key: &str,
    now: i64,
) -> (r: LoginDecision)
    requires
        now <= i64::MAX - ONE_YEAR_SECONDS,
    ensures
        match cookie {
            Some(c) => c@ == trim_of(key@),
            None => false,
        } ==> r is AlreadyAuthorized,
        !(match cookie {
            Some(c) => c@ == trim_of(key@),
            None => false,
        }) ==> ({
            if trim_of(password@) == trim_of(stored_password@) {
                r is Grant && r->Grant_0@ == trim_of(key@) && r->Grant_1 == now + ONE_YEAR_SECONDS
            } else {
                r is Denied
            }
        }),
{
    let trimmed_key = trim_str(key);
    if let Some(c) = cookie {
        if trimmed_key == *c {
            return LoginDecision::AlreadyAuthorized;
        }
    }
    let pw = trim_str(password);
    let stored = trim_str(stored_password);
    if pw == stored {
        LoginDecision::Grant(trimmed_key, now + ONE_YEAR_SECONDS)
    } else {
        LoginDecision::Denied
    }
}

} // verus!
