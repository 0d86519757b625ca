use vstd::prelude::*;

verus! {

/// Relies on num_cpus::get: the number of logical CPUs available to the
/// process, which the crate documents to be at least 1.
#[verifier::external_body]
fn available_cpus() -> (r: usize)
    ensures
        r >= 1,
{
    num_cpus::get()
}

/// The number of worker threads: the one requested when it is positive, else
/// the CPU count.
pub open spec fn workers_for(requested: Option<usize>, cpus: usize) -> usize {
    match requested {
        Some(n) if n >= 1 => n,
        _ => cpus,
    }
}

/// Picks the number of worker threads: the one requested when it is positive,
/// else the CPU count.
pub fn worker_count(requested: Option<usize>, cpus: usize) -> (r: usize)
    ensures
        r == workers_for(requested, cpus),
{
    match requested {
        Some(n) if n >= 1 => n,
        _ => cpus,
    }
}

/// Where images are read from and written to, and how many workers process them.
pub struct ServerConf {
    input_path: String,
    output_path: String,
    worker_threads_n: usize,
}

impl ServerConf {
    #[verifier::type_invariant]
    spec fn has_workers(&self) -> bool {
        self.worker_threads_n >= 1
    }

    /// The input base directory.
    pub closed spec fn input_view(&self) -> Seq<char> {
        self.input_path@
    }

    /// The output base directory.
    pub closed spec fn output_view(&self) -> Seq<char> {
        self.output_path@
    }

    /// The number of worker threads.
    pub closed spec fn workers_view(&self) -> usize {
        self.worker_threads_n
    }

    /// A configuration with the given directories, whose worker count is
    /// `worker_count(worker_threads, cpus)`.
    pub fn with_cpu_count(input_path: String, output_path: String, worker_threads: Option<usize>, cpus: usize) -> (r:
        Self)
        requires
            cpus >= 1,
        ensures
            r.input_view() == input_path@,
            r.output_view() == output_path@,
            r.workers_view() == workers_for(worker_threads, cpus),
    {
        let worker_threads_n = worker_count(worker_threads, cpus);
        ServerConf { input_path, output_path, worker_threads_n }
    }

    /// A configuration with the given directories; the worker count is the one
    /// given when it is positive, else the number of CPUs available here.
    pub fn new(input_path: String, output_path: String, worker_threads: Option<usize>) -> (r: Self)
        ensures
            r.input_view() == input_path@,
            r.output_view() == output_path@,
            exists|cpus: usize| cpus >= 1 && r.workers_view() == #[trigger] workers_for(worker_threads, cpus),
    {
        let cpus = available_cpus();
        Self::with_cpu_count(input_path, output_path, worker_threads, cpus)
    }

    /// Absolute path of the directory to which the crops are written.
    pub fn output_path(&self) -> (r: &str)
        ensures
            r@ == self.output_view(),
    {
        self.output_path.as_str()
    }

    /// Absolute path of the directory in which requested directories live.
    pub fn input_path(&self) -> (r: &str)
        ensures
            r@ == self.input_view(),
    {
        self.input_path.as_str()
    }

    /// Maximum number of threads the image processing is spread over.
    pub fn worker_threads(&self) -> (r: usize)
        ensures
            r == self.workers_view(),
            r >= 1,
    {
        proof {
            use_type_invariant(self);
        }
        self.worker_threads_n
    }
}

} // verus!
