//! The provider of the clients of the cloud control service.

use std::sync::Arc;
use vstd::prelude::*;
use crate::planners::plan_node::clone_arc;

verus! {

/// How long a connection to the service may take, in seconds.
pub const CLOUD_REQUEST_TIMEOUT_SEC: u64 = 5;

/// The metadata key under which a request carries its tenant.
pub const TENANT_ID: &'static str = "X-DATABEND-TENANT";

/// The metadata key under which a request carries its user.
pub const REQUESTER: &'static str = "X-DATABEND-USER";

/// The metadata key under which a request carries its query.
pub const QUERY_ID: &'static str = "X-DATABEND-QUERY-ID";

/// A client of the task service: where it connects to, and how long it
/// waits for the connection.
pub struct TaskClient {
    pub endpoint: String,
    pub connect_timeout_sec: u64,
}

impl TaskClient {
    /// A client for the service at `endpoint`, with the common timeout.
    pub fn new(endpoint: String) -> (client: TaskClient)
        ensures
            client.endpoint == endpoint,
            client.connect_timeout_sec == CLOUD_REQUEST_TIMEOUT_SEC,
    {
        TaskClient { endpoint, connect_timeout_sec: CLOUD_REQUEST_TIMEOUT_SEC }
    }
}

/// Hands out the clients of the cloud control service.
pub struct CloudControlApiProvider {
    pub task_client: Arc<TaskClient>,
}

impl CloudControlApiProvider {
    /// The client of the task service; every caller shares the one client.
    pub fn get_task_client(&self) -> (client: Arc<TaskClient>)
        ensures
            client == self.task_client,
    {
        clone_arc(&self.task_client)
    }
}

} // verus!
