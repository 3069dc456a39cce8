//! The uniform failure value returned by every database-facing operation:
//! six structured fields fixed at construction and never mutated.
use vstd::prelude::*;

verus! {

use crate::text::{dec_str, push_decimal};
use vstd::string::StringExecFns;

#[derive(Debug)]
pub struct StandardizedError {
    pub error_message: String,
    pub name: String,
    pub part: String,
    pub tag: String,
    pub status_code: u16,
    pub title: String,
}

impl StandardizedError {
    /// Builds an error with every field supplied explicitly; no defaults,
    /// no partial construction.
    pub fn new(
        error_message: &str,
        name: &str,
        part: &str,
        tag: &str,
        status_code: u16,
        title: &str,
    ) -> (r: Self)
        ensures
            r.error_message@ == error_message@,
            r.name@ == name@,
            r.part@ == part@,
            r.tag@ == tag@,
            r.status_code == status_code,
            r.title@ == title@,
    {
        Self {
            error_message: error_message.to_owned(),
            name: name.to_owned(),
            part: part.to_owned(),
            tag: tag.to_owned(),
            status_code: status_code,
            title: title.to_owned(),
        }
    }

    /// The deterministic multi-line rendering for logs and diagnostics,
    /// listing all six fields by label in a fixed order.
    pub fn display_string(&self) -> (r: String)
        ensures
            r@ == "Error: "@ + self.error_message@ + "\nName: "@ + self.name@ + "\nPart: "@
                + self.part@ + "\nTag: "@ + self.tag@ + "\nStatus Code: "@
                + dec_str(self.status_code as nat) + "\nTitle: "@ + self.title@,
    {
        let mut r = String::new();
        r.append("Error: ");
        r.append(self.error_message.as_str());
        r.append("\nName: ");
        r.append(self.name.as_str());
        r.append("\nPart: ");
        r.append(self.part.as_str());
        r.append("\nTag: ");
        r.append(self.tag.as_str());
        r.append("\nStatus Code: ");
        push_decimal(&mut r, self.status_code);
        r.append("\nTitle: ");
        r.append(self.title.as_str());
        proof {
            assert(r@ =~= "Error: "@ + self.error_message@ + "\nName: "@ + self.name@
                + "\nPart: "@ + self.part@ + "\nTag: "@ + self.tag@ + "\nStatus Code: "@
                + dec_str(self.status_code as nat) + "\nTitle: "@ + self.title@);
        }
        r
    }
}

} // verus!
