use vstd::prelude::*;

verus! {

/// A mapping dialect, named by the package that declares it.
#[derive(Debug, Clone, PartialEq, Eq, Hash)]
pub struct Dialect {
    package: String,
}

pub open spec fn dialect_prefix() -> Seq<char> {
    "protosearch."@
}

impl Dialect {
    pub closed spec fn spec_package(&self) -> Seq<char> {
        self.package@
    }

    pub fn new(package: String) -> (r: Self)
        ensures
            r.spec_package() == package@,
    {
        Dialect { package }
    }

    pub fn package(&self) -> (r: &str)
        ensures
            r@ == self.spec_package(),
    {
        self.package.as_str()
    }

    /// The package with its leading `protosearch.` removed, when it has one.
    pub fn suffix(&self) -> (r: &str)
        ensures
            r@ == (if self.spec_package().len() >= 12 && self.spec_package().take(12) == dialect_prefix() {
                self.spec_package().skip(12)
            } else {
                self.spec_package()
            }),
    {
        let s = self.package.as_str();
        let n = s.unicode_len();
        if n >= 12 {
            let head = String::from_str(s.substring_char(0, 12));
            let prefix = String::from_str("protosearch.");
            if head == prefix {
                return s.substring_char(12, n);
            }
        }
        s
    }
}

} // verus!
