//! Report of internal dependencies declared at a version other than the
//! authoritative one.

use vstd::prelude::*;

verus! {

/// One internal dependency declared at the wrong version.
#[derive(Debug)]
pub struct UnpinnedDependency {
    pub name: String,
    pub actual: String,
    pub expected: String,
}

/// One manifest file (by its path) with its unpinned dependencies.
#[derive(Debug)]
pub struct UnpinnedPackageDependencies(pub String, pub Vec<UnpinnedDependency>);

/// Every unpinned dependency of one lint run.
#[derive(Debug)]
pub struct UnpinnedMonorepoDependencies(pub Vec<UnpinnedPackageDependencies>);

/// The report line for one unpinned dependency.
pub open spec fn dependency_line_view(d: UnpinnedDependency) -> Seq<char> {
    "dependency: "@ + d.name@ + "\texpected: "@ + d.expected@ + "\tgot: "@ + d.actual@
}

/// The report lines for one manifest's unpinned dependencies.
pub open spec fn package_lines_view(deps: Seq<UnpinnedDependency>) -> Seq<char>
    decreases deps.len(),
{
    if deps.len() == 0 {
        Seq::empty()
    } else {
        package_lines_view(deps.drop_last()) + "\t"@ + dependency_line_view(deps.last()) + "\n"@
    }
}

/// The report block for one manifest.
pub open spec fn package_report_view(p: UnpinnedPackageDependencies) -> Seq<char> {
    "File contains unpinned dependency versions: \""@ + p.0@ + "\"\n"@ + package_lines_view(p.1@)
}

/// The whole report.
pub open spec fn monorepo_report_view(ps: Seq<UnpinnedPackageDependencies>) -> Seq<char>
    decreases ps.len(),
{
    if ps.len() == 0 {
        Seq::empty()
    } else {
        monorepo_report_view(ps.drop_last()) + package_report_view(ps.last())
    }
}

impl UnpinnedDependency {
    /// The report line for this dependency.
    pub fn render(&self) -> (r: String)
        ensures
            r@ == dependency_line_view(*self),
    {
        let mut out = String::new();
        out.append("dependency: ");
        out.append(self.name.as_str());
        out.append("\texpected: ");
        out.append(self.expected.as_str());
        out.append("\tgot: ");
        out.append(self.actual.as_str());
        out
    }
}

impl UnpinnedPackageDependencies {
    /// The report block for this manifest.
    #[verifier::loop_isolation(false)]
    pub fn render(&self) -> (r: String)
        ensures
            r@ == package_report_view(*self),
    {
        let mut out = String::new();
        out.append("File contains unpinned dependency versions: \"");
        out.append(self.0.as_str());
        out.append("\"\n");
        proof {
            assert(package_lines_view(self.1@.take(0)) =~= Seq::<char>::empty());
            assert(out@ =~= "File contains unpinned dependency versions: \""@ + self.0@ + "\"\n"@
                + package_lines_view(self.1@.take(0)));
        }
        let mut i: usize = 0;
        while i < self.1.len()
            invariant
                0 <= i <= self.1@.len(),
                out@ == "File contains unpinned dependency versions: \""@ + self.0@ + "\"\n"@
                    + package_lines_view(self.1@.take(i as int)),
            decreases self.1@.len() - i,
        {
            out.append("\t");
            let line = self.1[i].render();
            out.append(line.as_str());
            out.append("\n");
            proof {
                let cur = self.1@.take(i as int + 1);
                assert(cur.drop_last() =~= self.1@.take(i as int));
                assert(cur.last() == self.1@[i as int]);
            }
            i = i + 1;
        }
        proof {
            assert(self.1@.take(self.1@.len() as int) =~= self.1@);
        }
        out
    }
}

impl UnpinnedMonorepoDependencies {
    /// Whether the lint run found nothing unpinned.
    pub fn is_empty(&self) -> (r: bool)
        ensures
            r == (self.0@.len() == 0),
    {
        self.0.is_empty()
    }

    /// The whole report, one block per manifest.
    #[verifier::loop_isolation(false)]
    pub fn render(&self) -> (r: String)
        ensures
            r@ == monorepo_report_view(self.0@),
    {
        let mut out = String::new();
        let mut i: usize = 0;
        proof {
            assert(out@ =~= monorepo_report_view(self.0@.take(0)));
        }
        while i < self.0.len()
            invariant
                0 <= i <= self.0@.len(),
                out@ == monorepo_report_view(self.0@.take(i as int)),
            decreases self.0@.len() - i,
        {
            let block = self.0[i].render();
            out.append(block.as_str());
            proof {
                let cur = self.0@.take(i as int + 1);
                assert(cur.drop_last() =~= self.0@.take(i as int));
                assert(cur.last() == self.0@[i as int]);
            }
            i = i + 1;
        }
        proof {
            assert(self.0@.take(self.0@.len() as int) =~= self.0@);
        }
        out
    }
}

} // verus!
