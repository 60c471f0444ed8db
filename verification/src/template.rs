//! Run-script templates and their rendering: placeholders in a template are
//! replaced by the resolved option values.

use vstd::prelude::*;
use crate::manifest::{Options, OptionsV};
use crate::strutil::{joined_args, replace_all, replaced};

verus! {

/// The POSIX shell run-script template.
pub const RUN_TEMPLATE_SH: &'static str = "#!/bin/sh\nexec java -Xmx$$JAVA_MEM$$ $$JAVA_GC_OPTS$$ $$JAVA_EXTRA_OPTS$$ -jar $$SERVER_JAR$$ nogui\n";

/// The Windows batch run-script template.
pub const RUN_TEMPLATE_BAT: &'static str = "@echo off\r\njava -Xmx$$JAVA_MEM$$ $$JAVA_GC_OPTS$$ $$JAVA_EXTRA_OPTS$$ -jar $$SERVER_JAR$$ nogui\r\n";

/// A template with its four placeholders replaced by the option values, in
/// the order memory, GC options, extra options, server jar.
pub open spec fn rendered(t: Seq<char>, o: OptionsV) -> Seq<char> {
    replaced(
        replaced(
            replaced(
                replaced(t, "$$JAVA_MEM$$"@, o.java_mem),
                "$$JAVA_GC_OPTS$$"@,
                o.java_gc_opts,
            ),
            "$$JAVA_EXTRA_OPTS$$"@,
            joined_args(o.java_extra_opts),
        ),
        "$$SERVER_JAR$$"@,
        o.server_jar_rel,
    )
}

/// Renders a run-script template against resolved options.
pub fn parse_template(template: &str, options: &Options) -> (r: String)
    ensures
        r@ == rendered(template@, options@),
{
    proof {
        reveal_strlit("$$JAVA_MEM$$");
        reveal_strlit("$$JAVA_GC_OPTS$$");
        reveal_strlit("$$JAVA_EXTRA_OPTS$$");
        reveal_strlit("$$SERVER_JAR$$");
    }
    let extra = crate::strutil::join_args(&options.java_extra_opts);
    let r1 = replace_all(template, "$$JAVA_MEM$$", options.java_mem.as_str());
    let r2 = replace_all(r1.as_str(), "$$JAVA_GC_OPTS$$", options.java_gc_opts.as_str());
    let r3 = replace_all(r2.as_str(), "$$JAVA_EXTRA_OPTS$$", extra.as_str());
    let r4 = replace_all(r3.as_str(), "$$SERVER_JAR$$", options.server_jar_rel.as_str());
    r4
}

} // verus!
