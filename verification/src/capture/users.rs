//! The users and groups of a host. The password hashes are stored apart.
use crate::capture::system::CaptureWarning;
use crate::capture::system::WarningFact;
use crate::catalog::rows::facts;
use crate::catalog::rows::facts_push;
use crate::text::concat2;
use crate::text::copy_text;
use crate::text::opt_text;
use vstd::prelude::*;

verus! {

/// The users and groups, and where the password hashes are stored.
#[derive(Debug)]
pub struct UserDatabaseRef {
    pub passwd: String,
    pub group: String,
    /// The hash of the stored password hashes; none where they could not be read.
    pub shadow_blob_chunk: Option<String>,
}

impl UserDatabaseRef {
    /// Whether nothing is known of the users.
    pub open spec fn is_blank(self) -> bool {
        &&& self.passwd@ == Seq::<char>::empty()
        &&& self.group@ == Seq::<char>::empty()
        &&& self.shadow_blob_chunk is None
    }

    pub fn empty() -> (out: Self)
        ensures
            out.is_blank(),
    {
        UserDatabaseRef { passwd: String::new(), group: String::new(), shadow_blob_chunk: None }
    }
}

/// The password hashes.
#[derive(Debug)]
pub struct UserDatabaseBlob {
    pub shadow: String,
    pub gshadow: String,
}

/// The password hashes that are to be stored, where they could be read. The hashes of groups may
/// be missing.
pub fn shadow_blob(shadow: &Result<String, String>, gshadow: &Result<String, String>) -> (out:
    Option<UserDatabaseBlob>)
    ensures
        out is Some <==> shadow is Ok,
        out matches Some(blob) ==> blob.shadow@ == shadow->Ok_0@ && blob.gshadow@ == (if gshadow is Ok {
            gshadow->Ok_0@
        } else {
            Seq::empty()
        }),
{
    match shadow {
        Ok(s) => Some(
            UserDatabaseBlob {
                shadow: copy_text(s.as_str()),
                gshadow: match gshadow {
                    Ok(g) => copy_text(g.as_str()),
                    Err(_) => String::new(),
                },
            },
        ),
        Err(_) => None,
    }
}

/// A warning where a file could not be read.
pub open spec fn unread(read: Result<String, String>, path: Seq<char>) -> Seq<WarningFact> {
    match read {
        Ok(_) => Seq::empty(),
        Err(e) => seq![("users"@, "could not read "@ + path + ": "@ + e@, None::<Seq<char>>)],
    }
}

/// The warnings about the password hashes.
pub open spec fn shadow_warnings(
    shadow_error: Option<Seq<char>>,
    stored: Option<Result<String, String>>,
) -> Seq<WarningFact> {
    match shadow_error {
        Some(e) => seq![
            (
                "users"@,
                "/etc/shadow unreadable: "@ + e,
                Some("re-run as root to capture password hashes"@),
            ),
        ],
        None => match stored {
            Some(Err(e)) => seq![
                ("users"@, "could not persist shadow blob: "@ + e@, None::<Seq<char>>),
            ],
            _ => Seq::empty(),
        },
    }
}

fn note(warnings: &mut Vec<CaptureWarning>, w: CaptureWarning)
    ensures
        facts(final(warnings)@) == facts(old(warnings)@).push(w@),
{
    proof {
        facts_push(warnings@, w);
    }
    warnings.push(w);
}

/// The users and groups of a host with the warnings about them. `shadow_error` says why the
/// password hashes could not be read, and `stored` how storing them ended.
pub fn read_users(
    passwd: Result<String, String>,
    group: Result<String, String>,
    shadow_error: Option<String>,
    stored: Option<Result<String, String>>,
) -> (out: (UserDatabaseRef, Vec<CaptureWarning>))
    ensures
        out.0.passwd@ == (if passwd is Ok {
            passwd->Ok_0@
        } else {
            Seq::empty()
        }),
        out.0.group@ == (if group is Ok {
            group->Ok_0@
        } else {
            Seq::empty()
        }),
        opt_text(out.0.shadow_blob_chunk) == (if shadow_error is None && stored is Some
            && stored->0 is Ok {
            Some(stored->0->Ok_0@)
        } else {
            None
        }),
        facts(out.1@) == unread(passwd, "/etc/passwd"@) + unread(group, "/etc/group"@)
            + shadow_warnings(opt_text(shadow_error), stored),
{
    let mut warnings: Vec<CaptureWarning> = Vec::new();
    assert(facts(warnings@) =~= Seq::<WarningFact>::empty());
    let passwd_text = match passwd {
        Ok(s) => s,
        Err(e) => {
            let m = concat2("could not read /etc/passwd: ", e.as_str());
            proof {
                reveal_strlit("could not read /etc/passwd: ");
                reveal_strlit("could not read ");
                reveal_strlit("/etc/passwd");
                reveal_strlit(": ");
                assert("could not read /etc/passwd: "@ =~= "could not read "@ + "/etc/passwd"@
                    + ": "@);
            }
            note(&mut warnings, CaptureWarning::new("users", m.as_str()));
            String::new()
        },
    };
    let group_text = match group {
        Ok(s) => s,
        Err(e) => {
            let m = concat2("could not read /etc/group: ", e.as_str());
            proof {
                reveal_strlit("could not read /etc/group: ");
                reveal_strlit("could not read ");
                reveal_strlit("/etc/group");
                reveal_strlit(": ");
                assert("could not read /etc/group: "@ =~= "could not read "@ + "/etc/group"@
                    + ": "@);
            }
            note(&mut warnings, CaptureWarning::new("users", m.as_str()));
            String::new()
        },
    };
    let shadow_blob_chunk = match &shadow_error {
        Some(e) => {
            let m = concat2("/etc/shadow unreadable: ", e.as_str());
            note(
                &mut warnings,
                CaptureWarning::new("users", m.as_str()).with_remediation(
                    "re-run as root to capture password hashes",
                ),
            );
            None
        },
        None => match stored {
            Some(Ok(hash)) => Some(hash),
            Some(Err(e)) => {
                let m = concat2("could not persist shadow blob: ", e.as_str());
                note(&mut warnings, CaptureWarning::new("users", m.as_str()));
                None
            },
            None => None,
        },
    };
    assert(facts(warnings@) =~= unread(passwd, "/etc/passwd"@) + unread(group, "/etc/group"@)
        + shadow_warnings(opt_text(shadow_error), stored));
    (
        UserDatabaseRef { passwd: passwd_text, group: group_text, shadow_blob_chunk },
        warnings,
    )
}

/// A file of users that cannot be read is warned about by its name, and so are password hashes
/// that cannot be read or stored; and else nothing is.
pub proof fn missing_users_are_warned_about(
    read: Result<String, String>,
    path: Seq<char>,
    shadow_error: Option<Seq<char>>,
    stored: Option<Result<String, String>>,
)
    ensures
        read is Ok ==> unread(read, path).len() == 0,
        read is Err ==> unread(read, path).len() == 1 && unread(read, path)[0].1
            == "could not read "@ + path + ": "@ + read->Err_0@,
        shadow_error is Some ==> shadow_warnings(shadow_error, stored).len() == 1
            && shadow_warnings(shadow_error, stored)[0].1 == "/etc/shadow unreadable: "@
            + shadow_error->0,
        shadow_error is None && (stored matches Some(Err(_))) ==> shadow_warnings(
            shadow_error,
            stored,
        ).len() == 1,
        shadow_error is None && !(stored matches Some(Err(_))) ==> shadow_warnings(
            shadow_error,
            stored,
        ).len() == 0,
{
}

/// A blank list of users holds nobody, and no password hashes.
pub proof fn blank_users_are_empty(part: UserDatabaseRef)
    requires
        part.is_blank(),
    ensures
        part.passwd@.len() == 0,
        part.group@.len() == 0,
        part.shadow_blob_chunk is None,
{
}

} // verus!
