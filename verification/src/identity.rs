//! Identity: per-seat SSH agent mount RO, allowed signers.

use vstd::prelude::*;

use crate::profile::{CredentialSurface, Profile};
use crate::text;

verus! {

/// Returns volume args for the per-seat `AF_UNIX` `SSH_AUTH_SOCK` mount
/// read-only.
///
/// The socket comes only from the profile's credential surface; ambient
/// `SSH_AUTH_SOCK` is never consulted. Without an agent nothing is mounted.
#[must_use]
pub fn ssh_agent_volume_args(profile: &Profile) -> (args: Vec<String>)
    ensures
        args.deep_view() == (match profile.deep_view().agent {
            None => Seq::<Seq<char>>::empty(),
            Some(sock) => seq![
                "--volume"@,
                sock + ":"@ + sock + ":ro"@,
                "-e"@,
                "SSH_AUTH_SOCK="@ + sock,
            ],
        }),
{
    let mut args: Vec<String> = Vec::new();
    match &profile.credential_surface {
        CredentialSurface::Absent => {
            assert(args.deep_view() =~= Seq::<Seq<char>>::empty());
        },
        CredentialSurface::Agent { ssh_agent } => {
            let sock = ssh_agent.as_str();
            args.push("--volume".to_owned());
            args.push(text::cat4(sock, ":", sock, ":ro"));
            args.push("-e".to_owned());
            args.push(text::cat("SSH_AUTH_SOCK=", sock));
            assert(args.deep_view() =~= seq![
                "--volume"@,
                sock@ + ":"@ + sock@ + ":ro"@,
                "-e"@,
                "SSH_AUTH_SOCK="@ + sock@,
            ]);
        },
    }
    args
}

/// Content of an `allowed_signers` file for the seat's signing key:
/// `principal ssh-ed25519 AAAAC3...`.
pub fn allowed_signers_text(principal: &str, pubkey: &str) -> (s: String)
    ensures
        s@ == principal@ + " "@ + pubkey@ + "\n"@,
{
    text::cat4(principal, " ", pubkey, "\n")
}

} // verus!
