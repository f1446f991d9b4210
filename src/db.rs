use vstd::prelude::*;
use crate::flow::CsmlBot;
use crate::value::text_eq;

verus! {

/// The client a conversation belongs to.
#[derive(Debug)]
pub struct Client {
    pub bot_id: String,
    pub channel_id: String,
    pub user_id: String,
}

#[derive(Debug)]
pub struct DbConversation {
    pub id: String,
    pub client: Client,
    pub flow_id: String,
    pub step_id: String,
    pub metadata: serde_json::Value,
    pub status: String,
    pub last_interaction_at: String,
    pub updated_at: String,
    pub created_at: String,
}

#[derive(Debug)]
pub struct DbInteraction {
    pub id: String,
    pub client: Client,
    pub success: bool,
    pub event: serde_json::Value,
    pub updated_at: String,
    pub created_at: String,
}

#[derive(Debug)]
pub struct DbMemory {
    pub id: String,
    pub client: Client,
    pub interaction_id: String,
    pub conversation_id: String,
    pub flow_id: String,
    pub step_id: String,
    pub memory_order: i32,
    pub interaction_order: i32,
    pub key: String,
    pub value: serde_json::Value,
    pub expires_at: Option<String>,
    pub created_at: String,
}

#[derive(Debug)]
pub struct DbMessage {
    pub id: String,
    pub client: Client,
    pub interaction_id: String,
    pub conversation_id: String,
    pub flow_id: String,
    pub step_id: String,
    pub message_order: i32,
    pub interaction_order: i32,
    pub direction: String,
    pub payload: serde_json::Value,
    pub content_type: String,
    pub created_at: String,
}

/// One transition taken during a turn.
#[derive(Debug)]
pub struct DbNode {
    pub id: String,
    pub client: Client,
    pub interaction_id: String,
    pub conversation_id: String,
    pub flow_id: String,
    pub step_id: String,
    pub next_step: Option<String>,
    pub next_flow: Option<String>,
    pub created_at: String,
}

#[derive(Debug)]
pub struct DbState {
    pub id: String,
    pub client: Client,
    pub _type: String,
    pub value: serde_json::Value,
    pub expires_at: Option<String>,
    pub created_at: String,
}

#[derive(Debug)]
pub struct DbBot {
    pub id: String,
    pub bot_id: String,
    pub bot: String,
    pub engine_version: String,
    pub created_at: String,
}

/// A stored bot definition and the id of its version.
#[derive(Debug)]
pub struct BotVersion {
    pub bot: CsmlBot,
    pub version_id: String,
}

/// The storage backend in use.
#[derive(Clone, Copy, Debug, PartialEq, Eq, Structural)]
pub enum Database {
    Mongo,
    Dynamo,
}

#[derive(Debug)]
pub enum EngineError {
    Manager(String),
}

pub open spec fn mongodb_word() -> Seq<char> {
    seq!['m', 'o', 'n', 'g', 'o', 'd', 'b']
}

pub open spec fn dynamodb_word() -> Seq<char> {
    seq!['d', 'y', 'n', 'a', 'm', 'o', 'd', 'b']
}

/// Whether the backend switch selects MongoDB; it does when the switch is unset.
pub fn is_mongodb(engine_db_type: &Option<String>) -> (r: bool)
    ensures
        r == match engine_db_type {
            Some(v) => v@ == mongodb_word(),
            None => true,
        },
{
    proof {
        reveal_strlit("mongodb");
        assert("mongodb"@ =~= mongodb_word());
    }
    match engine_db_type {
        Some(v) => text_eq(v.as_str(), "mongodb"),
        None => true,
    }
}

/// Whether the backend switch selects DynamoDB; it does not when the switch is unset.
pub fn is_dynamodb(engine_db_type: &Option<String>) -> (r: bool)
    ensures
        r == match engine_db_type {
            Some(v) => v@ == dynamodb_word(),
            None => false,
        },
{
    proof {
        reveal_strlit("dynamodb");
        assert("dynamodb"@ =~= dynamodb_word());
    }
    match engine_db_type {
        Some(v) => text_eq(v.as_str(), "dynamodb"),
        None => false,
    }
}

/// Picks the storage backend from the value of the backend switch: MongoDB when
/// it is unset or `mongodb`, DynamoDB when it is `dynamodb`, an error otherwise.
pub fn init_db(engine_db_type: &Option<String>) -> (r: Result<Database, EngineError>)
    ensures
        r matches Ok(Database::Mongo) <==> (engine_db_type is None || engine_db_type->Some_0@ == mongodb_word()),
        r matches Ok(Database::Dynamo) <==> (engine_db_type matches Some(v) && v@ == dynamodb_word()),
        r is Err <==> (engine_db_type matches Some(v) && v@ != mongodb_word() && v@ != dynamodb_word()),
{
    if is_mongodb(engine_db_type) {
        return Ok(Database::Mongo);
    }
    if is_dynamodb(engine_db_type) {
        return Ok(Database::Dynamo);
    }
    Err(EngineError::Manager("Database is not set up correctly".to_owned()))
}

} // verus!
