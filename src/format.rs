//! The pacman mirrorlist text form of a ranked mirror list.
use vstd::prelude::*;
use vstd::string::*;

use crate::mirror::{Mirror, Mirrors};

verus! {

/// The mirrorlist line of a mirror with base URL `url`.
pub open spec fn server_line(url: Seq<char>) -> Seq<char> {
    "Server = "@ + url + "$repo/os/$arch"@
}

/// One mirrorlist line per mirror, each ended by a line feed.
pub open spec fn mirror_list(ms: Seq<Mirror>) -> Seq<char>
    decreases ms.len(),
{
    if ms.len() == 0 {
        Seq::empty()
    } else {
        mirror_list(ms.drop_last()) + server_line(ms.last().url@) + "\n"@
    }
}

/// The comment block that heads a mirrorlist file.
pub open spec fn header_text(source_url: Seq<char>, when: Seq<char>) -> Seq<char> {
    "#\n# /etc/pacman.d/mirrorlist\n#\n#\n# Arch Linux mirrorlist generated by pacman-mirrorup\n#\n# pacman-mirrorup: https://github.com/bpetlert/pacman-mirrorup\n# source: "@
        + source_url + "\n# when: "@ + when + "\n#\n\n"@
}

/// Relies on `chrono::Local::now` and `DateTime::to_rfc2822`: the current local time in
/// RFC 2822 form. Nothing is promised of its value.
#[verifier::external_body]
fn local_now_rfc2822() -> (r: String) {
    chrono::Local::now().to_rfc2822()
}

/// The mirrorlist header for catalog `source_url`, stamped with `when`.
pub fn header_at(source_url: &str, when: &str) -> (r: String)
    ensures
        r@ == header_text(source_url@, when@),
{
    let mut r = String::from_str(
        "#\n# /etc/pacman.d/mirrorlist\n#\n#\n# Arch Linux mirrorlist generated by pacman-mirrorup\n#\n# pacman-mirrorup: https://github.com/bpetlert/pacman-mirrorup\n# source: ",
    );
    r.append(source_url);
    r.append("\n# when: ");
    r.append(when);
    r.append("\n#\n\n");
    r
}

impl Mirror {
    /// This mirror's mirrorlist line.
    pub fn to_pacman_mirror_list(&self) -> (r: String)
        ensures
            r@ == server_line(self.url@),
    {
        let mut r = String::from_str("Server = ");
        r.append(self.url.as_str());
        r.append("$repo/os/$arch");
        r
    }
}

impl Mirrors {
    /// The mirrorlist lines of all mirrors, in order.
    pub fn to_pacman_mirror_list(&self) -> (r: String)
        ensures
            r@ == mirror_list(self@),
    {
        let mut r = String::new();
        let mut i: usize = 0;
        while i < self.0.len()
            invariant
                i <= self@.len(),
                r@ == mirror_list(self@.take(i as int)),
            decreases self@.len() - i,
        {
            let line = self.0[i].to_pacman_mirror_list();
            r.append(line.as_str());
            r.append("\n");
            assert(self@.take(i + 1).drop_last() =~= self@.take(i as int));
            i = i + 1;
        }
        assert(self@.take(self@.len() as int) =~= self@);
        r
    }

    /// The mirrorlist header for catalog `source_url`, stamped with the current local time.
    pub fn header(&self, source_url: &str) -> (r: String)
        ensures
            exists|when: Seq<char>| r@ == header_text(source_url@, when),
    {
        let when = local_now_rfc2822();
        header_at(source_url, when.as_str())
    }
}

} // verus!
